//! Ending and finding processes through `taskkill` and `tasklist`.

use vstd::prelude::*;
use vstd::string::StringExecFns;
use vstd::utf8::{decode_utf8, valid_utf8};

use crate::platform::{CommandLine, CommandText, Signal};

verus! {

/// The decimal digit for a value below ten.
pub open spec fn digit(value: nat) -> char {
    (('0' as int) + value) as char
}

/// A number in decimal, without leading zeros.
pub open spec fn decimal(value: nat) -> Seq<char>
    decreases value,
{
    if value < 10 {
        seq![digit(value)]
    } else {
        decimal(value / 10).push(digit(value % 10))
    }
}

fn digit_text(value: u32) -> (text: &'static str)
    requires
        value < 10,
    ensures
        text@ == seq![digit(value as nat)],
{
    let text = match value {
        0 => "0",
        1 => "1",
        2 => "2",
        3 => "3",
        4 => "4",
        5 => "5",
        6 => "6",
        7 => "7",
        8 => "8",
        _ => "9",
    };
    proof {
        reveal_strlit("0");
        reveal_strlit("1");
        reveal_strlit("2");
        reveal_strlit("3");
        reveal_strlit("4");
        reveal_strlit("5");
        reveal_strlit("6");
        reveal_strlit("7");
        reveal_strlit("8");
        reveal_strlit("9");
        assert(text@ =~= seq![digit(value as nat)]);
    }
    text
}

/// Writes a pid in decimal.
fn decimal_text(value: u32) -> (text: String)
    ensures
        text@ == decimal(value as nat),
    decreases value,
{
    if value < 10 {
        digit_text(value).to_owned()
    } else {
        let mut text = decimal_text(value / 10);
        text.append(digit_text(value % 10));
        assert(text@ =~= decimal(value as nat));
        text
    }
}

/// The command that ends the process `pid` by force.
pub open spec fn taskkill(pid: u32) -> CommandText {
    CommandText { program: "taskkill"@, args: seq!["/F"@, "/PID"@, decimal(pid as nat)] }
}

/// The commands that end the processes `pids`, in order; pid zero is passed
/// over.
pub open spec fn taskkills(pids: Seq<u32>) -> Seq<CommandText> {
    pids.filter(|pid: u32| pid != 0).map_values(|pid: u32| taskkill(pid))
}

fn taskkill_command(pid: u32) -> (command: CommandLine)
    ensures
        command@ == taskkill(pid),
{
    let mut args: Vec<String> = Vec::new();
    args.push("/F".to_owned());
    args.push("/PID".to_owned());
    args.push(decimal_text(pid));
    let command = CommandLine { program: "taskkill".to_owned(), args };
    assert(command@.args =~= taskkill(pid).args);
    command
}

/// The commands that carry out a signal on `pids`. Windows has neither
/// SIGHUP nor SIGTERM, so whatever the signal, the processes are ended by
/// force, which works whatever console they run on.
pub fn signal_processes(pids: &[u32], _signal: Signal) -> (commands: Vec<CommandLine>)
    ensures
        commands@.map_values(|command: CommandLine| command@) == taskkills(pids@),
{
    let mut commands: Vec<CommandLine> = Vec::new();
    let mut k: usize = 0;
    proof {
        reveal(Seq::filter);
        assert(pids@.take(0) =~= Seq::<u32>::empty());
        assert(commands@.map_values(|command: CommandLine| command@) =~= taskkills(pids@.take(0)));
    }
    while k < pids.len()
        invariant
            k <= pids@.len(),
            commands@.map_values(|command: CommandLine| command@) == taskkills(pids@.take(k as int)),
        decreases pids@.len() - k,
    {
        let pid: u32 = pids[k];
        let ghost before = commands@;
        if pid != 0 {
            commands.push(taskkill_command(pid));
        }
        proof {
            reveal(Seq::filter);
            let seen = pids@.take(k as int);
            let more = pids@.take(k + 1);
            assert(more.drop_last() =~= seen);
            assert(more.last() == pid);
            let texts = commands@.map_values(|command: CommandLine| command@);
            let old_texts = before.map_values(|command: CommandLine| command@);
            if pid != 0 {
                assert(texts =~= old_texts.push(taskkill(pid)));
                assert(taskkills(more) =~= taskkills(seen).push(taskkill(pid)));
            } else {
                assert(taskkills(more) =~= taskkills(seen));
            }
        }
        k = k + 1;
    }
    assert(pids@.take(k as int) =~= pids@);
    commands
}

/// The pid between double quotes, as a row of `tasklist` shows it.
pub open spec fn quoted_pid(pid: u32) -> Seq<char> {
    seq!['"'] + decimal(pid as nat) + seq!['"']
}

/// The command that lists the process `pid`, as bare rows of quoted fields.
pub open spec fn tasklist(pid: u32) -> CommandText {
    CommandText {
        program: "tasklist"@,
        args: seq!["/FI"@, "PID eq "@ + decimal(pid as nat), "/NH"@, "/FO"@, "CSV"@],
    }
}

/// Whether `needle` stands somewhere in `text`.
pub open spec fn contains_text(text: Seq<char>, needle: Seq<char>) -> bool {
    exists|at: int|
        0 <= at && at + needle.len() <= text.len() && #[trigger] text.subrange(
            at,
            at + needle.len(),
        ) == needle
}

/// The text that `String::from_utf8_lossy` of the standard library makes of
/// some bytes.
pub uninterp spec fn utf8_lossy(bytes: Seq<u8>) -> Seq<char>;

/// Calls `String::from_utf8_lossy` of the standard library. Its result is
/// named by `utf8_lossy`; bytes that are valid UTF-8 come out as the text
/// they encode. What stands in the place of invalid bytes is left open.
#[verifier::external_body]
fn string_from_utf8_lossy(bytes: &[u8]) -> (text: String)
    ensures
        text@ == utf8_lossy(bytes@),
        valid_utf8(bytes@) ==> text@ == decode_utf8(bytes@),
{
    String::from_utf8_lossy(bytes).into_owned()
}

/// The command that asks the system about the process `pid`. There is
/// nothing to ask about pid zero.
pub fn process_query(pid: u32) -> (command: Option<CommandLine>)
    ensures
        pid == 0 ==> command is None,
        pid != 0 ==> (command matches Some(query) && query@ == tasklist(pid)),
{
    if pid == 0 {
        return None;
    }
    let mut filter = "PID eq ".to_owned();
    filter.append(decimal_text(pid).as_str());
    let mut args: Vec<String> = Vec::new();
    args.push("/FI".to_owned());
    args.push(filter);
    args.push("/NH".to_owned());
    args.push("/FO".to_owned());
    args.push("CSV".to_owned());
    let command = CommandLine { program: "tasklist".to_owned(), args };
    assert(command@.args =~= tasklist(pid).args);
    Some(command)
}

/// The characters of a text.
fn chars_of(text: &str) -> (chars: Vec<char>)
    ensures
        chars@ == text@,
{
    let mut chars: Vec<char> = Vec::new();
    for c in it: text.chars()
        invariant
            chars@.len() == it.index(),
            it.seq() == text@,
            forall|i: int| 0 <= i < chars@.len() ==> chars@[i] == text@[i],
    {
        chars.push(c);
    }
    assert(chars@ =~= text@);
    chars
}

/// Whether `needle` stands in `text` at `at`.
fn matches_at(text: &[char], needle: &[char], at: usize) -> (found: bool)
    requires
        at + needle@.len() <= text@.len(),
    ensures
        found == (text@.subrange(at as int, at + needle@.len()) == needle@),
{
    let end: usize = text.len();
    let mut k: usize = 0;
    while k < needle.len()
        invariant
            k <= needle@.len(),
            end == text@.len(),
            at + needle@.len() <= end,
            forall|i: int| 0 <= i < k ==> text@[at + i] == needle@[i],
        decreases needle@.len() - k,
    {
        if text[at + k] != needle[k] {
            assert(text@.subrange(at as int, at + needle@.len())[k as int] != needle@[k as int]);
            return false;
        }
        k = k + 1;
    }
    assert(text@.subrange(at as int, at + needle@.len()) =~= needle@);
    true
}

/// Whether a listing shows the process `pid`: its number stands between
/// double quotes in the text.
pub fn listing_shows_pid(listing: &str, pid: u32) -> (shown: bool)
    ensures
        shown == contains_text(listing@, quoted_pid(pid)),
{
    let mut quoted = "\"".to_owned();
    quoted.append(decimal_text(pid).as_str());
    quoted.append("\"");
    proof {
        reveal_strlit("\"");
        assert(quoted@ =~= quoted_pid(pid));
    }
    let needle = chars_of(quoted.as_str());
    let text = chars_of(listing);
    if text.len() < needle.len() {
        return false;
    }
    let end: usize = text.len();
    let last: usize = end - needle.len();
    let mut at: usize = 0;
    while at <= last
        invariant
            at <= last + 1,
            end == text@.len(),
            last + needle@.len() == end,
            needle@.len() > 0,
            needle@ == quoted_pid(pid),
            text@ == listing@,
            forall|i: int|
                0 <= i < at ==> #[trigger] text@.subrange(i, i + needle@.len()) != needle@,
        decreases last + 1 - at,
    {
        if matches_at(text.as_slice(), needle.as_slice(), at) {
            return true;
        }
        at = at + 1;
    }
    false
}

/// Whether the process `pid` is live, by what `tasklist` printed. Nothing
/// printed means that the tool could not be run, and pid zero is never live.
pub fn process_exists(pid: u32, stdout: Option<&[u8]>) -> (exists_now: bool)
    ensures
        exists_now == (pid != 0 && (stdout matches Some(bytes) && contains_text(
            utf8_lossy(bytes@),
            quoted_pid(pid),
        ))),
        stdout matches Some(bytes) ==> valid_utf8(bytes@) ==> exists_now == (pid != 0
            && contains_text(decode_utf8(bytes@), quoted_pid(pid))),
{
    if pid == 0 {
        return false;
    }
    match stdout {
        Some(bytes) => {
            let text = string_from_utf8_lossy(bytes);
            listing_shows_pid(text.as_str(), pid)
        },
        None => false,
    }
}

/// Different numbers are written differently.
pub proof fn decimal_is_injective(a: nat, b: nat)
    requires
        decimal(a) == decimal(b),
    ensures
        a == b,
    decreases a,
{
    lemma_decimal_is_digits(a);
    lemma_decimal_is_digits(b);
    assert(decimal(a).last() == digit(a % 10));
    assert(decimal(b).last() == digit(b % 10));
    if a >= 10 && b >= 10 {
        assert(decimal(a / 10) =~= decimal(a).drop_last());
        assert(decimal(b / 10) =~= decimal(b).drop_last());
        decimal_is_injective(a / 10, b / 10);
    } else if a >= 10 {
        lemma_decimal_is_digits(a / 10);
        assert(decimal(a).len() > 1);
    } else if b >= 10 {
        lemma_decimal_is_digits(b / 10);
        assert(decimal(b).len() > 1);
    }
}

/// A number in decimal is one or more digits.
proof fn lemma_decimal_is_digits(value: nat)
    ensures
        decimal(value).len() > 0,
        forall|i: int|
            0 <= i < decimal(value).len() ==> '0' <= #[trigger] decimal(value)[i] <= '9',
    decreases value,
{
    if value >= 10 {
        lemma_decimal_is_digits(value / 10);
    }
}

/// A quoted pid shows that pid and no other, not even one whose digits it
/// contains.
pub proof fn quoted_pid_shows_one_pid(shown: u32, pid: u32)
    ensures
        contains_text(quoted_pid(shown), quoted_pid(pid)) <==> shown == pid,
{
    let text = quoted_pid(shown);
    let needle = quoted_pid(pid);
    let digits = decimal(pid as nat);
    let shown_digits = decimal(shown as nat);
    lemma_decimal_is_digits(shown as nat);
    lemma_decimal_is_digits(pid as nat);
    if contains_text(text, needle) {
        let at = choose|at: int|
            0 <= at && at + needle.len() <= text.len() && #[trigger] text.subrange(
                at,
                at + needle.len(),
            ) == needle;
        let found = text.subrange(at, at + needle.len());
        assert(found[0] == '"');
        assert(text[at] == '"');
        assert(at == 0) by {
            if at > 0 {
                assert(text[at] == shown_digits[at - 1]);
            }
        }
        let end = needle.len() - 1;
        assert(found[end] == '"');
        assert(text[end] == '"');
        assert(end == text.len() - 1) by {
            if end < text.len() - 1 {
                assert(text[end] == shown_digits[end - 1]);
            }
        }
        assert(digits =~= shown_digits) by {
            assert forall|i: int| 0 <= i < digits.len() implies digits[i] == shown_digits[i] by {
                assert(found[i + 1] == digits[i]);
                assert(text[i + 1] == shown_digits[i]);
            }
        }
        decimal_is_injective(shown as nat, pid as nat);
    }
    if shown == pid {
        let whole = text.subrange(0, 0 + needle.len() as int);
        assert(whole =~= needle);
    }
}

/// What is kept of a sequence was in it.
proof fn lemma_kept_is_given(pids: Seq<u32>, wanted: spec_fn(u32) -> bool, i: int)
    requires
        0 <= i < pids.filter(wanted).len(),
    ensures
        pids.contains(pids.filter(wanted)[i]),
    decreases pids.len(),
{
    reveal(Seq::filter);
    if pids.len() > 0 {
        let rest = pids.drop_last();
        let kept = rest.filter(wanted);
        if i < kept.len() {
            lemma_kept_is_given(rest, wanted, i);
            let j = choose|j: int| 0 <= j < rest.len() && rest[j] == kept[i];
            assert(pids[j] == kept[i]);
        } else {
            assert(pids[pids.len() - 1] == pids.last());
        }
    }
}

/// Every command goes to one of the pids given, and none to pid zero.
pub proof fn pid_zero_is_never_signalled(pids: Seq<u32>, i: int)
    requires
        0 <= i < taskkills(pids).len(),
    ensures
        exists|pid: u32| #[trigger]
            pids.contains(pid) && pid != 0 && taskkills(pids)[i] == taskkill(pid),
{
    let wanted = |pid: u32| pid != 0;
    broadcast use vstd::seq_lib::group_filter_ensures;

    let pid = pids.filter(wanted)[i];
    assert(wanted(pid));
    lemma_kept_is_given(pids, wanted, i);
}

/// Every pid given but zero gets its command.
pub proof fn every_pid_is_signalled(pids: Seq<u32>, pid: u32)
    requires
        pids.contains(pid),
        pid != 0,
    ensures
        taskkills(pids).contains(taskkill(pid)),
{
    let wanted = |pid: u32| pid != 0;
    broadcast use vstd::seq_lib::group_filter_ensures;

    let kept = pids.filter(wanted);
    assert(wanted(pid));
    assert(kept.contains(pid));
    let i = choose|i: int| 0 <= i < kept.len() && kept[i] == pid;
    assert(taskkills(pids)[i] == taskkill(pid));
}

/// The number that a text denotes, read from the left in base ten: each
/// character adds its distance from `0` to ten times what came before.
pub open spec fn number_read(text: Seq<char>) -> int
    decreases text.len(),
{
    if text.len() == 0 {
        0
    } else {
        10 * number_read(text.drop_last()) + (text.last() as int - '0' as int)
    }
}

/// A number in decimal denotes that number: reading its digits from the left
/// in base ten gives it back. All its characters are digits, and the first
/// is no zero unless the number is.
pub proof fn decimal_denotes_its_number(value: nat)
    ensures
        number_read(decimal(value)) == value,
        decimal(value).len() > 0,
        forall|i: int|
            0 <= i < decimal(value).len() ==> '0' <= #[trigger] decimal(value)[i] <= '9',
        decimal(value)[0] == '0' <==> value == 0,
    decreases value,
{
    lemma_decimal_is_digits(value);
    let text = decimal(value);
    if value < 10 {
        assert(text.drop_last() =~= seq![]);
        assert(number_read(text.drop_last()) == 0);
    } else {
        decimal_denotes_its_number(value / 10);
        assert(text.drop_last() =~= decimal(value / 10));
        assert(text[0] == decimal(value / 10)[0]);
    }
}

/// A number of one digit is written as that digit, and one more digit behind
/// a number stands behind its text.
pub proof fn decimal_grows_digit_by_digit(value: nat, last: nat)
    requires
        last < 10,
    ensures
        decimal(last).len() == 1,
        decimal(last)[0] as int == '0' as int + last,
        value > 0 ==> decimal(10 * value + last) == decimal(value) + decimal(last),
{
    if value > 0 {
        assert((10 * value + last) / 10 == value);
        assert((10 * value + last) % 10 == last);
        assert(decimal(10 * value + last) =~= decimal(value) + decimal(last));
    }
}

/// Signalling goes pid by pid and in order: one more pid leaves the earlier
/// commands as they are and adds one that runs `taskkill /F /PID` on that
/// pid, or none where the pid is zero. No pids get no commands.
pub proof fn one_more_pid_adds_its_command(
    pids: Seq<u32>,
    pid: u32,
    fewer: Seq<CommandLine>,
    more: Seq<CommandLine>,
)
    requires
        fewer.map_values(|command: CommandLine| command@) == taskkills(pids),
        more.map_values(|command: CommandLine| command@) == taskkills(pids.push(pid)),
    ensures
        pids.len() == 0 ==> fewer.len() == 0,
        more.len() == fewer.len() + (if pid == 0 {
            0int
        } else {
            1
        }),
        forall|i: int| 0 <= i < fewer.len() ==> (#[trigger] more[i])@ == fewer[i]@,
        pid != 0 ==> {
            let added = more.last();
            &&& added.program@ == "taskkill"@
            &&& added.args@.len() == 3
            &&& added.args@[0]@ == "/F"@
            &&& added.args@[1]@ == "/PID"@
            &&& added.args@[2]@ == decimal(pid as nat)
            &&& number_read(added.args@[2]@) == pid
        },
{
    reveal(Seq::filter);
    let fewer_texts = fewer.map_values(|command: CommandLine| command@);
    let more_texts = more.map_values(|command: CommandLine| command@);
    assert(fewer_texts.len() == fewer.len());
    assert(more_texts.len() == more.len());
    assert(pids.push(pid).drop_last() =~= pids);
    assert(pids.push(pid).last() == pid);
    if pid == 0 {
        assert(more_texts =~= fewer_texts);
    } else {
        assert(more_texts =~= fewer_texts.push(taskkill(pid)));
        let added = more.last();
        assert(added@ == more_texts[more.len() - 1]);
        assert(added@ == taskkill(pid));
        crate::platform::a_command_line_says_its_words(added);
        decimal_denotes_its_number(pid as nat);
    }
    assert forall|i: int| 0 <= i < fewer.len() implies (#[trigger] more[i])@ == fewer[i]@ by {
        assert(more[i]@ == more_texts[i]);
        assert(fewer[i]@ == fewer_texts[i]);
    }
}

/// A process is asked about by `tasklist /FI "PID eq N" /NH /FO CSV`, where
/// `N` is its pid in decimal.
pub proof fn a_query_names_its_pid(pid: u32, query: CommandLine)
    requires
        query@ == tasklist(pid),
    ensures
        query.program@ == "tasklist"@,
        query.args@.len() == 5,
        query.args@[0]@ == "/FI"@,
        query.args@[1]@ == "PID eq "@ + decimal(pid as nat),
        number_read(query.args@[1]@.skip("PID eq "@.len() as int)) == pid,
        query.args@[2]@ == "/NH"@,
        query.args@[3]@ == "/FO"@,
        query.args@[4]@ == "CSV"@,
{
    crate::platform::a_command_line_says_its_words(query);
    decimal_denotes_its_number(pid as nat);
    assert(query.args@[1]@.skip("PID eq "@.len() as int) =~= decimal(pid as nat));
}

/// A listing shows a pid wherever the pid's digits stand between double
/// quotes, whatever comes before and after them.
pub proof fn a_quoted_pid_is_found_anywhere(
    pid: u32,
    listing: Seq<char>,
    front: Seq<char>,
    digits: Seq<char>,
    back: Seq<char>,
)
    requires
        listing == front + seq!['"'] + digits + seq!['"'] + back,
        digits == decimal(pid as nat),
    ensures
        contains_text(listing, quoted_pid(pid)),
{
    let needle = quoted_pid(pid);
    let at = front.len() as int;
    assert(listing.subrange(at, at + needle.len()) =~= needle);
}

/// A listing that shows a pid has the pid's digits between double quotes
/// somewhere.
pub proof fn a_shown_pid_stands_in_quotes(pid: u32, listing: Seq<char>)
    requires
        contains_text(listing, quoted_pid(pid)),
    ensures
        exists|at: int|
            {
                &&& 0 <= at < listing.len()
                &&& #[trigger] listing[at] == '"'
                &&& at + 1 + decimal(pid as nat).len() < listing.len()
                &&& listing.subrange(at + 1, at + 1 + decimal(pid as nat).len()) == decimal(
                    pid as nat,
                )
                &&& listing[at + 1 + decimal(pid as nat).len()] == '"'
            },
{
    let needle = quoted_pid(pid);
    let digits = decimal(pid as nat);
    let at = choose|at: int|
        0 <= at && at + needle.len() <= listing.len() && #[trigger] listing.subrange(
            at,
            at + needle.len(),
        ) == needle;
    let found = listing.subrange(at, at + needle.len());
    assert(needle.len() == digits.len() + 2);
    assert(found[0] == '"');
    assert(listing[at] == '"');
    assert(found[digits.len() as int + 1] == '"');
    assert(listing[at + 1 + digits.len()] == '"');
    assert forall|i: int| 0 <= i < digits.len() implies listing[at + 1 + i] == digits[i] by {
        assert(found[i + 1] == needle[i + 1]);
    }
    assert(listing.subrange(at + 1, at + 1 + digits.len()) =~= digits);
}

} // verus!
