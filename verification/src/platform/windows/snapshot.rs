//! Turning the rows of a process listing into snapshot entries.

use vstd::prelude::*;
use vstd::slice::slice_subrange;
use vstd::utf8::{encode_utf8, is_char_boundary};

use crate::platform::windows::process_tree::ProcessEntry;

verus! {

/// Whether a UTF-16 unit opens a surrogate pair.
pub open spec fn is_high_surrogate(unit: u16) -> bool {
    0xD800 <= unit <= 0xDBFF
}

/// Whether a UTF-16 unit closes a surrogate pair.
pub open spec fn is_low_surrogate(unit: u16) -> bool {
    0xDC00 <= unit <= 0xDFFF
}

/// The text that UTF-16 units stand for, with U+FFFD in the place of each
/// surrogate that is not part of a pair.
pub open spec fn utf16_lossy(units: Seq<u16>) -> Seq<char>
    decreases units.len(),
{
    if units.len() == 0 {
        seq![]
    } else if is_high_surrogate(units[0]) && units.len() > 1 && is_low_surrogate(units[1]) {
        seq![(0x10000 + (units[0] - 0xD800) * 0x400 + (units[1] - 0xDC00)) as char] + utf16_lossy(
            units.skip(2),
        )
    } else if is_high_surrogate(units[0]) || is_low_surrogate(units[0]) {
        seq!['\u{FFFD}'] + utf16_lossy(units.skip(1))
    } else {
        seq![units[0] as char] + utf16_lossy(units.skip(1))
    }
}

/// Calls `String::from_utf16_lossy` of the standard library. It decodes
/// UTF-16 in native byte order and puts U+FFFD where a surrogate stands
/// without its other half; the contract states that result in full.
#[verifier::external_body]
fn string_from_utf16_lossy(units: &[u16]) -> (text: String)
    ensures
        text@ == utf16_lossy(units@),
{
    String::from_utf16_lossy(units)
}

/// The units before the first zero, or all of them where there is none.
pub open spec fn until_nul(units: Seq<u16>) -> Seq<u16>
    decreases units.len(),
{
    if units.len() == 0 || units[0] == 0 {
        seq![]
    } else {
        seq![units[0]] + until_nul(units.skip(1))
    }
}

/// A prefix without a zero that a zero or the end follows is what stands
/// before the first zero.
proof fn lemma_until_nul(units: Seq<u16>, len: int)
    requires
        0 <= len <= units.len(),
        forall|i: int| 0 <= i < len ==> units[i] != 0,
        len < units.len() ==> units[len] == 0,
    ensures
        until_nul(units) == units.take(len),
    decreases len,
{
    if len > 0 {
        lemma_until_nul(units.skip(1), len - 1);
        assert(units.take(len) =~= seq![units[0]] + units.skip(1).take(len - 1));
    } else {
        assert(units.take(len) =~= seq![]);
    }
}

/// The text in a fixed-size UTF-16 buffer, up to its terminating zero.
pub fn wide_to_string(buf: &[u16]) -> (text: String)
    ensures
        text@ == utf16_lossy(until_nul(buf@)),
{
    let mut len: usize = 0;
    while len < buf.len() && buf[len] != 0
        invariant
            len <= buf@.len(),
            forall|i: int| 0 <= i < len ==> buf@[i] != 0,
        decreases buf@.len() - len,
    {
        len = len + 1;
    }
    proof {
        lemma_until_nul(buf@, len as int);
    }
    string_from_utf16_lossy(slice_subrange(buf, 0, len))
}

/// Whether `c` is the letter `lower` in either case.
pub open spec fn is_letter(c: char, lower: char) -> bool {
    c == lower || c as int + 32 == lower as int
}

/// Whether a name is a stem followed by `.exe`, in any mix of cases.
pub open spec fn has_exe_suffix(name: Seq<char>) -> bool {
    let n = name.len() as int;
    &&& n > 4
    &&& name[n - 4] == '.'
    &&& is_letter(name[n - 3], 'e')
    &&& is_letter(name[n - 2], 'x')
    &&& is_letter(name[n - 1], 'e')
}

/// The name of an executable without its `.exe`.
pub open spec fn exe_stem(name: Seq<char>) -> Seq<char> {
    if has_exe_suffix(name) {
        name.take(name.len() - 4)
    } else {
        name
    }
}

/// Whether the last four bytes of a name can be looked at as text: the name
/// has no more than four, or a character starts at the first of them.
pub open spec fn last_four_bytes_are_text(name: Seq<char>) -> bool {
    let bytes = encode_utf8(name);
    bytes.len() > 4 ==> is_char_boundary(bytes, bytes.len() - 4)
}

/// The UTF-8 form of a text is that of its parts in turn.
proof fn lemma_encode_concat(a: Seq<char>, b: Seq<char>)
    ensures
        encode_utf8(a + b) == encode_utf8(a) + encode_utf8(b),
    decreases a.len(),
{
    if a.len() == 0 {
        assert(a + b =~= b);
        assert(encode_utf8(a) + encode_utf8(b) =~= encode_utf8(b));
    } else {
        lemma_encode_concat(a.drop_first(), b);
        assert((a + b).drop_first() =~= a.drop_first() + b);
        assert(encode_utf8(a + b) =~= encode_utf8(a) + encode_utf8(b));
    }
}

/// Texts with the same UTF-8 form are the same.
proof fn lemma_encode_injective(a: Seq<char>, b: Seq<char>)
    requires
        encode_utf8(a) == encode_utf8(b),
    ensures
        a == b,
{
    vstd::utf8::encode_utf8_decode_utf8(a);
    vstd::utf8::encode_utf8_decode_utf8(b);
}

/// Whether four bytes spell `.exe`, in any mix of cases.
spec fn is_dot_exe(bytes: Seq<u8>) -> bool {
    &&& bytes.len() == 4
    &&& bytes[0] == 0x2e
    &&& bytes[1] == 0x65 || bytes[1] == 0x45
    &&& bytes[2] == 0x78 || bytes[2] == 0x58
    &&& bytes[3] == 0x65 || bytes[3] == 0x45
}

/// A name split before its last four bytes ends in `.exe` exactly where
/// those bytes spell it.
proof fn lemma_exe_suffix_bytes(name: Seq<char>, head: Seq<char>, tail: Seq<char>)
    requires
        encode_utf8(name) == encode_utf8(head) + encode_utf8(tail),
        encode_utf8(tail).len() == 4,
        encode_utf8(name).len() > 4,
    ensures
        is_dot_exe(encode_utf8(tail)) <==> has_exe_suffix(name),
        has_exe_suffix(name) ==> head == name.take(name.len() - 4),
{
    lemma_encode_concat(head, tail);
    lemma_encode_injective(name, head + tail);
    let bytes = encode_utf8(tail);
    if is_dot_exe(bytes) {
        let spelt = Seq::new(4, |i: int| bytes[i] as char);
        vstd::utf8::is_ascii_chars_encode_utf8(spelt);
        assert(encode_utf8(spelt) =~= bytes);
        lemma_encode_injective(spelt, tail);
        assert(head.len() > 0);
        assert(has_exe_suffix(name));
        assert(head =~= name.take(name.len() - 4));
    }
    if has_exe_suffix(name) {
        let n = name.len() as int;
        let stem = name.take(n - 4);
        let suffix = name.skip(n - 4);
        assert(name =~= stem + suffix);
        assert(vstd::utf8::is_ascii_chars(suffix));
        vstd::utf8::is_ascii_chars_encode_utf8(suffix);
        lemma_encode_concat(stem, suffix);
        assert(bytes =~= encode_utf8(suffix)) by {
            let whole = encode_utf8(name);
            assert(bytes =~= whole.skip(whole.len() - 4));
            assert(encode_utf8(suffix) =~= whole.skip(whole.len() - 4));
        }
        assert(suffix[0] == name[n - 4]);
        assert(suffix[1] == name[n - 3]);
        assert(suffix[2] == name[n - 2]);
        assert(suffix[3] == name[n - 1]);
    }
}

/// Drops a trailing `.exe`, in any mix of cases, from a name that has more
/// in front of it.
pub fn strip_exe_suffix(name: &str) -> (stem: &str)
    requires
        last_four_bytes_are_text(name@),
    ensures
        stem@ == exe_stem(name@),
{
    let bytes = name.as_bytes();
    let len = bytes.len();
    if len <= 4 {
        proof {
            if has_exe_suffix(name@) {
                let n = name@.len() as int;
                lemma_encode_concat(name@.take(n - 4), name@.skip(n - 4));
                assert(name@ =~= name@.take(n - 4) + name@.skip(n - 4));
                vstd::utf8::is_ascii_chars_encode_utf8(name@.skip(n - 4));
                assert(encode_utf8(name@.take(n - 4)).len() > 0);
            }
        }
        return name;
    }
    let (head, tail) = name.split_at(len - 4);
    proof {
        assert(encode_utf8(name@) =~= encode_utf8(head@) + encode_utf8(tail@));
        lemma_exe_suffix_bytes(name@, head@, tail@);
    }
    let last = tail.as_bytes();
    if last[0] == 0x2e && (last[1] == 0x65 || last[1] == 0x45) && (last[2] == 0x78 || last[2]
        == 0x58) && (last[3] == 0x65 || last[3] == 0x45) {
        head
    } else {
        name
    }
}

/// One row as the process listing reports it.
#[derive(Clone, Debug, PartialEq, Eq)]
pub struct ListedProcess {
    pub pid: u32,
    pub parent_pid: u32,
    /// The file name of the executable, in UTF-16 and closed by a zero.
    pub exe_file: Vec<u16>,
}

/// The text of a row's executable name.
pub open spec fn exe_name(row: ListedProcess) -> Seq<char> {
    utf16_lossy(until_nul(row.exe_file@))
}

/// Whether `entry` is the snapshot entry for a listed row: same pids, and
/// the executable's name without its `.exe`.
pub open spec fn is_entry_for(entry: ProcessEntry, row: ListedProcess) -> bool {
    &&& entry.pid == row.pid
    &&& entry.parent_pid == row.parent_pid
    &&& entry.name@ == exe_stem(exe_name(row))
}

/// Whether a row's executable name can be stripped of its suffix.
pub fn exe_name_is_text(row: &ListedProcess) -> (readable: bool)
    ensures
        readable == last_four_bytes_are_text(exe_name(*row)),
{
    let name = wide_to_string(row.exe_file.as_slice());
    let text = name.as_str();
    let len = text.as_bytes().len();
    len <= 4 || text.is_char_boundary(len - 4)
}

/// What to do next while a process snapshot is being taken.
#[derive(Clone, Copy, Debug, PartialEq, Eq, Structural)]
pub enum WalkStep {
    /// Ask for the first row.
    ReadFirst,
    /// Ask for the row after the last one.
    ReadNext,
    /// Close the listing's handle; the snapshot is complete.
    Close,
    /// There is no listing and no handle to close.
    Finish,
}

/// The entries gathered so far while a process listing is read.
#[derive(Debug, PartialEq, Eq)]
pub struct ProcessWalk {
    pub entries: Vec<ProcessEntry>,
}

/// Whether the system's handle value stands for an open listing. Null and
/// minus one do not.
pub open spec fn is_open_handle(handle: isize) -> bool {
    handle != 0 && handle != -1
}

impl ProcessWalk {
    /// Begins a snapshot from the handle that opening the listing gave.
    pub fn start(handle: isize) -> (started: (ProcessWalk, WalkStep))
        ensures
            started.0.entries@ == Seq::<ProcessEntry>::empty(),
            started.1 == (if is_open_handle(handle) {
                WalkStep::ReadFirst
            } else {
                WalkStep::Finish
            }),
    {
        let walk = ProcessWalk { entries: Vec::new() };
        if handle == 0 || handle == -1 {
            (walk, WalkStep::Finish)
        } else {
            (walk, WalkStep::ReadFirst)
        }
    }

    /// Takes in the answer to a request for a row: the row, or nothing
    /// where the listing has ended.
    pub fn on_row(&mut self, row: Option<ListedProcess>) -> (step: WalkStep)
        requires
            row matches Some(listed) ==> last_four_bytes_are_text(exe_name(listed)),
        ensures
            row is None ==> step == WalkStep::Close && final(self).entries@ == old(self).entries@,
            row matches Some(listed) ==> {
                &&& step == WalkStep::ReadNext
                &&& final(self).entries@.len() == old(self).entries@.len() + 1
                &&& final(self).entries@.drop_last() == old(self).entries@
                &&& is_entry_for(final(self).entries@.last(), listed)
            },
    {
        match row {
            None => WalkStep::Close,
            Some(listed) => {
                let raw = wide_to_string(listed.exe_file.as_slice());
                let name = strip_exe_suffix(raw.as_str()).to_owned();
                let entry = ProcessEntry { pid: listed.pid, parent_pid: listed.parent_pid, name };
                self.entries.push(entry);
                assert(self.entries@.drop_last() =~= old(self).entries@);
                WalkStep::ReadNext
            },
        }
    }
}

/// Text without surrogates decodes unit by unit.
pub proof fn plain_units_decode_one_to_one(units: Seq<u16>)
    requires
        forall|i: int|
            0 <= i < units.len() ==> (#[trigger] units[i]) < 0xD800 || units[i] > 0xDFFF,
    ensures
        utf16_lossy(units) == units.map_values(|unit: u16| unit as char),
    decreases units.len(),
{
    if units.len() > 0 {
        plain_units_decode_one_to_one(units.skip(1));
    }
    assert(utf16_lossy(units) =~= units.map_values(|unit: u16| unit as char));
}

/// An executable is known by its bare stem: `.exe` in any mix of cases
/// comes off a name that has something in front of it, once, and such a
/// name can always be read.
pub proof fn exe_suffix_comes_off(stem: Seq<char>, suffix: Seq<char>)
    requires
        stem.len() > 0,
        suffix.len() == 4,
        suffix[0] == '.',
        suffix[1] == 'e' || suffix[1] == 'E',
        suffix[2] == 'x' || suffix[2] == 'X',
        suffix[3] == 'e' || suffix[3] == 'E',
    ensures
        last_four_bytes_are_text(stem + suffix),
        exe_stem(stem + suffix) == stem,
{
    let name = stem + suffix;
    assert(has_exe_suffix(name));
    assert(name.take(name.len() - 4) =~= stem);
    lemma_encode_concat(stem, suffix);
    vstd::utf8::is_ascii_chars_encode_utf8(suffix);
    let bytes = encode_utf8(name);
    vstd::utf8::encode_utf8_valid_utf8(name);
    assert(bytes[bytes.len() - 4] == suffix[0] as u8);
    vstd::utf8::is_char_boundary_iff_is_leading_byte(bytes, bytes.len() - 4);
}

/// A name in ASCII can always be read.
pub proof fn ascii_names_are_text(name: Seq<char>)
    requires
        vstd::utf8::is_ascii_chars(name),
    ensures
        last_four_bytes_are_text(name),
{
    let bytes = encode_utf8(name);
    vstd::utf8::is_ascii_chars_encode_utf8(name);
    vstd::utf8::encode_utf8_valid_utf8(name);
    if bytes.len() > 4 {
        assert(bytes[bytes.len() - 4] == name[name.len() - 4] as u8);
        vstd::utf8::is_char_boundary_iff_is_leading_byte(bytes, bytes.len() - 4);
    }
}

/// Whether the entries gathered are those of the rows read, in order.
pub open spec fn entries_match(entries: Seq<ProcessEntry>, rows: Seq<ListedProcess>) -> bool {
    &&& entries.len() == rows.len()
    &&& forall|i: int| 0 <= i < rows.len() ==> is_entry_for(#[trigger] entries[i], rows[i])
}

/// A snapshot holds every row of the listing once and in order: what one
/// more row adds keeps the entries and the rows in step.
pub proof fn walk_keeps_every_row(
    before: Seq<ProcessEntry>,
    rows: Seq<ListedProcess>,
    after: Seq<ProcessEntry>,
    listed: ListedProcess,
)
    requires
        entries_match(before, rows),
        after.len() == before.len() + 1,
        after.drop_last() == before,
        is_entry_for(after.last(), listed),
    ensures
        entries_match(after, rows.push(listed)),
{
    assert forall|i: int| 0 <= i < rows.len() + 1 implies is_entry_for(
        #[trigger] after[i],
        rows.push(listed)[i],
    ) by {
        if i < rows.len() {
            assert(after[i] == after.drop_last()[i]);
        }
    }
}

/// A buffer's text ends before its first zero, whatever stands behind that,
/// and takes up all of a buffer without one.
pub proof fn a_buffer_is_read_to_its_first_zero(front: Seq<u16>, back: Seq<u16>)
    requires
        forall|i: int| 0 <= i < front.len() ==> #[trigger] front[i] != 0,
    ensures
        until_nul(front + seq![0u16] + back) == front,
        until_nul(front) == front,
{
    let units = front + seq![0u16] + back;
    let len = front.len() as int;
    assert forall|i: int| 0 <= i < len implies units[i] != 0 by {
        assert(units[i] == front[i]);
    }
    lemma_until_nul(units, len);
    assert(units.take(len) =~= front);
    lemma_until_nul(front, len);
    assert(front.take(len) =~= front);
}

/// Every character comes back from its UTF-16 form, whatever follows it: one
/// unit up to U+FFFF, and above that the two halves that carry the upper and
/// the lower ten bits of its distance from U+10000.
pub proof fn every_character_comes_back(c: char, high: u16, low: u16, rest: Seq<u16>)
    requires
        c as int >= 0x10000 ==> high - 0xD800 == (c as int - 0x10000) / 0x400,
        c as int >= 0x10000 ==> low - 0xDC00 == (c as int - 0x10000) % 0x400,
    ensures
        utf16_lossy(Seq::<u16>::empty()) == Seq::<char>::empty(),
        (c as int) < 0x10000 ==> utf16_lossy(seq![c as u16] + rest) == seq![c] + utf16_lossy(rest),
        c as int >= 0x10000 ==> utf16_lossy(seq![high, low] + rest) == seq![c] + utf16_lossy(rest),
{
    if (c as int) < 0x10000 {
        let units = seq![c as u16] + rest;
        assert(units.skip(1) =~= rest);
        assert(units[0] == c as int);
    } else {
        let units = seq![high, low] + rest;
        assert(units.skip(2) =~= rest);
        assert(units[0] == high);
        assert(units[1] == low);
    }
}

/// A half of a surrogate pair without its other half reads as U+FFFD, and
/// what follows is read as if it stood alone.
pub proof fn a_lone_surrogate_reads_as_a_replacement(unit: u16, rest: Seq<u16>)
    requires
        0xD800 <= unit <= 0xDFFF,
        unit <= 0xDBFF ==> rest.len() == 0 || rest[0] < 0xDC00 || rest[0] > 0xDFFF,
    ensures
        utf16_lossy(seq![unit] + rest) == seq!['\u{FFFD}'] + utf16_lossy(rest),
{
    let units = seq![unit] + rest;
    assert(units.skip(1) =~= rest);
    assert(units[0] == unit);
    if units.len() > 1 {
        assert(units[1] == rest[0]);
    }
}

/// A name that does not end in `.exe`, or is nothing else, stays as it is.
pub proof fn other_names_stay(name: Seq<char>)
    requires
        name.len() > 4 ==> {
            ||| name[name.len() - 4] != '.'
            ||| name[name.len() - 3] != 'e' && name[name.len() - 3] != 'E'
            ||| name[name.len() - 2] != 'x' && name[name.len() - 2] != 'X'
            ||| name[name.len() - 1] != 'e' && name[name.len() - 1] != 'E'
        },
    ensures
        exe_stem(name) == name,
{
}

/// A name can be read where some of its last characters take up its last
/// four bytes, and where it has no more than four bytes.
pub proof fn a_name_that_splits_can_be_read(head: Seq<char>, tail: Seq<char>)
    requires
        encode_utf8(tail).len() == 4 || encode_utf8(head + tail).len() <= 4,
    ensures
        last_four_bytes_are_text(head + tail),
{
    let bytes = encode_utf8(head + tail);
    if bytes.len() > 4 {
        lemma_encode_concat(head, tail);
        let four = encode_utf8(tail);
        assert(tail.len() > 0);
        vstd::utf8::encode_utf8_valid_utf8(head + tail);
        vstd::utf8::encode_utf8_valid_utf8(tail);
        assert(bytes[bytes.len() - 4] == four[0]);
        vstd::utf8::is_char_boundary_start_end_of_seq(four);
        vstd::utf8::is_char_boundary_iff_is_leading_byte(four, 0);
        vstd::utf8::is_char_boundary_iff_is_leading_byte(bytes, bytes.len() - 4);
    }
}

/// A name that can be read has no more than four bytes, or some of its last
/// characters take up its last four bytes.
pub proof fn a_name_that_can_be_read_splits(name: Seq<char>)
    requires
        last_four_bytes_are_text(name),
        encode_utf8(name).len() > 4,
    ensures
        exists|k: int|
            0 <= k <= name.len() && encode_utf8(#[trigger] name.skip(k)).len() == 4,
{
    let bytes = encode_utf8(name);
    let cut = bytes.len() - 4;
    vstd::utf8::encode_utf8_valid_utf8(name);
    vstd::utf8::valid_utf8_split(bytes, cut);
    vstd::utf8::decode_utf8_split(bytes, cut);
    vstd::utf8::encode_utf8_decode_utf8(name);
    let front = bytes.subrange(0, cut);
    let back = bytes.subrange(cut, bytes.len() as int);
    let head = vstd::utf8::decode_utf8(front);
    let tail = vstd::utf8::decode_utf8(back);
    vstd::utf8::decode_utf8_encode_utf8(back);
    assert(name =~= head + tail);
    assert(name.skip(head.len() as int) =~= tail);
    assert(encode_utf8(name.skip(head.len() as int)).len() == 4);
}

/// A character up to U+FFFF is one unit, which is no surrogate.
proof fn lemma_one_unit(c: char)
    requires
        0 < c as int <= 0xFFFF,
    ensures
        c as u16 != 0,
        (c as u16) < 0xD800 || (c as u16) > 0xDFFF,
        c as u16 as char == c,
{
    vstd::utf8::char_is_scalar(c);
    assert(c as u16 == c as int);
}

/// A listed row becomes an entry with its pids and its bare name: what stood
/// before `.exe` in the buffer, whatever follows the closing zero.
pub proof fn a_listed_row_becomes_its_entry(
    entry: ProcessEntry,
    row: ListedProcess,
    stem: Seq<char>,
    suffix: Seq<char>,
    rest: Seq<u16>,
)
    requires
        is_entry_for(entry, row),
        stem.len() > 0,
        forall|i: int| 0 <= i < stem.len() ==> 0 < (#[trigger] stem[i]) as int <= 0xFFFF,
        suffix.len() == 4,
        suffix[0] == '.',
        suffix[1] == 'e' || suffix[1] == 'E',
        suffix[2] == 'x' || suffix[2] == 'X',
        suffix[3] == 'e' || suffix[3] == 'E',
        row.exe_file@ == (stem + suffix).map_values(|c: char| c as u16) + seq![0u16] + rest,
    ensures
        entry.pid == row.pid,
        entry.parent_pid == row.parent_pid,
        entry.name@ == stem,
{
    let name = stem + suffix;
    let units = name.map_values(|c: char| c as u16);
    assert forall|i: int| 0 <= i < units.len() implies (#[trigger] units[i]) != 0 && (units[i]
        < 0xD800 || units[i] > 0xDFFF) && units[i] as char == name[i] by {
        if i < stem.len() {
            assert(name[i] == stem[i]);
        } else {
            assert(name[i] == suffix[i - stem.len()]);
        }
        lemma_one_unit(name[i]);
    }
    a_buffer_is_read_to_its_first_zero(units, rest);
    plain_units_decode_one_to_one(units);
    assert(units.map_values(|unit: u16| unit as char) =~= name);
    exe_suffix_comes_off(stem, suffix);
}

/// A row whose name has no `.exe` to lose keeps it whole.
pub proof fn a_listed_row_keeps_another_name(
    entry: ProcessEntry,
    row: ListedProcess,
    name: Seq<char>,
    rest: Seq<u16>,
)
    requires
        is_entry_for(entry, row),
        forall|i: int| 0 <= i < name.len() ==> 0 < (#[trigger] name[i]) as int <= 0xFFFF,
        name.len() > 4 ==> {
            ||| name[name.len() - 4] != '.'
            ||| name[name.len() - 3] != 'e' && name[name.len() - 3] != 'E'
            ||| name[name.len() - 2] != 'x' && name[name.len() - 2] != 'X'
            ||| name[name.len() - 1] != 'e' && name[name.len() - 1] != 'E'
        },
        row.exe_file@ == name.map_values(|c: char| c as u16) + seq![0u16] + rest,
    ensures
        entry.pid == row.pid,
        entry.parent_pid == row.parent_pid,
        entry.name@ == name,
{
    let units = name.map_values(|c: char| c as u16);
    assert forall|i: int| 0 <= i < units.len() implies (#[trigger] units[i]) != 0 && (units[i]
        < 0xD800 || units[i] > 0xDFFF) && units[i] as char == name[i] by {
        lemma_one_unit(name[i]);
    }
    a_buffer_is_read_to_its_first_zero(units, rest);
    plain_units_decode_one_to_one(units);
    assert(units.map_values(|unit: u16| unit as char) =~= name);
    other_names_stay(name);
}

/// A row's name is all that its buffer holds before the first zero, or the
/// whole buffer where it holds none, and its entry has that name without its
/// `.exe`.
pub proof fn a_row_is_named_by_its_whole_buffer(
    row: ListedProcess,
    entry: ProcessEntry,
    front: Seq<u16>,
    back: Seq<u16>,
)
    requires
        is_entry_for(entry, row),
        forall|i: int| 0 <= i < front.len() ==> #[trigger] front[i] != 0,
        row.exe_file@ == front || row.exe_file@ == front + seq![0u16] + back,
    ensures
        exe_name(row) == utf16_lossy(front),
        entry.name@ == exe_stem(utf16_lossy(front)),
{
    a_buffer_is_read_to_its_first_zero(front, back);
}

/// Any handle but null and minus one stands for an open listing.
pub proof fn every_other_handle_is_open(handle: isize)
    ensures
        is_open_handle(handle) <==> handle < -1 || handle > 0,
{
}

} // verus!
