use herdr::platform::windows::clipboard::{clipboard_commands, write_clipboard, ClipboardStep};
use herdr::platform::windows::console_mode::{
    enable_vt_input, on_mode, on_mode_written, on_std_input, vt_input_mode, VtInputStep,
    VT_INPUT_BITS,
};
use herdr::platform::windows::process_tree::{
    foreground_job, foreground_process_group_id, pick_active_descendant, ProcessEntry,
};
use herdr::platform::windows::snapshot::{
    exe_name_is_text, strip_exe_suffix, wide_to_string, ListedProcess, ProcessWalk, WalkStep,
};
use herdr::platform::windows::task_tools::{
    listing_shows_pid, process_exists, process_query, signal_processes,
};
use herdr::platform::windows::{process_cwd, session_processes, show_desktop_notification};
use herdr::platform::{CommandLine, ForegroundJob, ForegroundProcess, Signal};
use windows_sys::Win32::System::Console;

fn entry(pid: u32, parent_pid: u32) -> ProcessEntry {
    ProcessEntry { pid, parent_pid, name: format!("p{pid}") }
}

fn command(program: &str, args: &[&str]) -> CommandLine {
    CommandLine {
        program: program.to_string(),
        args: args.iter().map(|arg| arg.to_string()).collect(),
    }
}

fn wide(text: &str) -> Vec<u16> {
    text.encode_utf16().collect()
}

#[test]
fn the_deepest_leaf_is_active() {
    let tree = [entry(10, 1), entry(20, 10), entry(30, 20), entry(99, 10)];
    assert_eq!(pick_active_descendant(&tree, 10), Some(30));
    assert_eq!(pick_active_descendant(&tree, 20), Some(30));
    assert_eq!(pick_active_descendant(&tree, 30), None);
    assert_eq!(pick_active_descendant(&tree, 7), None);
    assert_eq!(pick_active_descendant(&[], 10), None);
}

#[test]
fn the_higher_pid_wins_among_leaves_of_one_depth() {
    let up = [entry(2, 1), entry(5, 2), entry(9, 2), entry(7, 2)];
    let down = [entry(7, 2), entry(9, 2), entry(5, 2), entry(2, 1)];
    assert_eq!(pick_active_descendant(&up, 1), Some(9));
    assert_eq!(pick_active_descendant(&down, 1), Some(9));
}

#[test]
fn cycles_of_parents_end_at_the_depth_limit() {
    let ring = [entry(1, 2), entry(2, 1)];
    assert_eq!(pick_active_descendant(&ring, 1), None);
    let selfish = [entry(1, 1), entry(2, 1)];
    assert_eq!(pick_active_descendant(&selfish, 1), Some(2));
    let tail = [entry(1, 2), entry(2, 1), entry(3, 2)];
    assert_eq!(pick_active_descendant(&tail, 1), Some(3));
}

#[test]
fn a_tree_is_searched_to_its_deepest_leaf() {
    let chain = |n: u32| (1..=n).map(|i| entry(100 + i, 99 + i)).collect::<Vec<_>>();
    assert_eq!(pick_active_descendant(&chain(16), 100), Some(116));
    assert_eq!(pick_active_descendant(&chain(17), 100), Some(117));
    assert_eq!(pick_active_descendant(&chain(60), 100), Some(160));
    let mut forked = chain(17);
    forked.push(entry(500, 100));
    assert_eq!(pick_active_descendant(&forked, 100), Some(117));
    let mut doubled = chain(40);
    doubled.extend(chain(40));
    assert_eq!(pick_active_descendant(&doubled, 100), Some(140));
}

#[test]
fn sixteen_generations_are_looked_at_where_there_is_a_cycle() {
    let ring = |n: u32| {
        let mut rows = vec![entry(1, 2), entry(2, 1)];
        rows.extend((1..=n).map(|i| entry(100 + i, if i == 1 { 2 } else { 99 + i })));
        rows
    };
    // The leaf hangs n steps below the ring; it is met at every other depth.
    assert_eq!(pick_active_descendant(&ring(15), 1), Some(115));
    assert_eq!(pick_active_descendant(&ring(16), 1), None);
    let mut forked = ring(16);
    forked.push(entry(500, 1));
    assert_eq!(pick_active_descendant(&forked, 1), Some(500));
    let mut apart = (1..=17).map(|i| entry(100 + i, 99 + i)).collect::<Vec<_>>();
    apart.push(entry(1, 2));
    apart.push(entry(2, 1));
    assert_eq!(pick_active_descendant(&apart, 100), Some(117));
}

#[test]
fn an_unrelated_process_changes_nothing() {
    let mut tree = vec![entry(10, 1), entry(20, 10)];
    assert_eq!(pick_active_descendant(&tree, 10), Some(20));
    tree.push(entry(300, 77));
    tree.push(entry(20, 20));
    assert_eq!(pick_active_descendant(&tree, 10), Some(20));
}

#[test]
fn only_parent_links_decide_what_is_active() {
    let plain = [entry(10, 1), entry(20, 10), entry(30, 20)];
    let mut shuffled = vec![entry(30, 20), entry(20, 10), entry(30, 20), entry(10, 1)];
    shuffled[1].name = "renamed".to_string();
    assert_eq!(pick_active_descendant(&plain, 10), Some(30));
    assert_eq!(pick_active_descendant(&shuffled, 10), Some(30));
}

#[test]
fn the_foreground_job_is_the_active_process() {
    let tree = [entry(10, 1), entry(20, 10), entry(30, 20)];
    let job = ForegroundJob {
        process_group_id: 30,
        processes: vec![ForegroundProcess {
            pid: 30,
            name: "p30".to_string(),
            argv0: Some("p30".to_string()),
            cmdline: None,
        }],
    };
    assert_eq!(foreground_job(10, &tree), Some(job));
    assert_eq!(foreground_process_group_id(10, &tree), Some(30));
    assert_eq!(foreground_job(30, &tree), None);
    assert_eq!(foreground_process_group_id(30, &tree), None);
    let orphan = [entry(4, 0)];
    assert_eq!(foreground_job(0, &orphan), None);
    assert_eq!(foreground_process_group_id(0, &orphan), None);
}

#[test]
fn the_first_row_names_the_process() {
    let mut tree = vec![entry(20, 10), entry(20, 10)];
    tree[0].name = "first".to_string();
    tree[1].name = "second".to_string();
    let job = foreground_job(10, &tree).unwrap();
    assert_eq!(job.processes[0].name, "first");
    assert_eq!(job.processes[0].argv0, Some("first".to_string()));
}

#[test]
fn wide_text_ends_at_its_zero() {
    assert_eq!(wide_to_string(&wide("cmd.exe\0junk")), "cmd.exe");
    assert_eq!(wide_to_string(&wide("all")), "all");
    assert_eq!(wide_to_string(&[]), "");
    assert_eq!(wide_to_string(&[0, 65]), "");
}

#[test]
fn wide_text_is_decoded() {
    assert_eq!(wide_to_string(&wide("h\u{e9}\u{4e16}")), "h\u{e9}\u{4e16}");
    assert_eq!(wide_to_string(&[0xD834, 0xDD1E, 0x6d]), "\u{1D11E}m");
    assert_eq!(wide_to_string(&[0x6d, 0xDD1E, 0x69, 0xD834]), "m\u{FFFD}i\u{FFFD}");
    assert_eq!(wide_to_string(&[0xD800, 0xD800, 0xDC00]), "\u{FFFD}\u{10000}");
    assert_eq!(wide_to_string(&[0xD800, 0x41]), "\u{FFFD}A");
    assert_eq!(wide_to_string(&[0xDBFF, 0xDFFF, 0xD7FF, 0xE000]), "\u{10FFFF}\u{D7FF}\u{E000}");
}

#[test]
fn the_exe_suffix_comes_off_once() {
    assert_eq!(strip_exe_suffix("nvim.exe"), "nvim");
    assert_eq!(strip_exe_suffix("HTOP.EXE"), "HTOP");
    assert_eq!(strip_exe_suffix("a.eXe"), "a");
    assert_eq!(strip_exe_suffix("a.exe.exe"), "a.exe");
    assert_eq!(strip_exe_suffix(".exe"), ".exe");
    assert_eq!(strip_exe_suffix("exe"), "exe");
    assert_eq!(strip_exe_suffix("fooexe"), "fooexe");
    assert_eq!(strip_exe_suffix("nvim"), "nvim");
    assert_eq!(strip_exe_suffix("\u{4e16}.exe"), "\u{4e16}");
    assert_eq!(strip_exe_suffix(""), "");
}

#[test]
fn a_listing_becomes_a_snapshot() {
    let (mut walk, step) = ProcessWalk::start(0x40);
    assert_eq!(step, WalkStep::ReadFirst);
    let shell = ListedProcess { pid: 4, parent_pid: 1, exe_file: wide("cmd.exe\0\0") };
    let agent = ListedProcess { pid: 8, parent_pid: 4, exe_file: wide("nvim.EXE\0") };
    assert!(exe_name_is_text(&shell));
    assert_eq!(walk.on_row(Some(shell)), WalkStep::ReadNext);
    assert_eq!(walk.on_row(Some(agent)), WalkStep::ReadNext);
    assert_eq!(walk.on_row(None), WalkStep::Close);
    assert_eq!(
        walk.entries,
        vec![
            ProcessEntry { pid: 4, parent_pid: 1, name: "cmd".to_string() },
            ProcessEntry { pid: 8, parent_pid: 4, name: "nvim".to_string() },
        ]
    );
}

#[test]
fn a_listing_that_does_not_open_is_empty() {
    for handle in [0, -1] {
        let (walk, step) = ProcessWalk::start(handle);
        assert_eq!(step, WalkStep::Finish);
        assert!(walk.entries.is_empty());
    }
}

#[test]
fn names_cut_inside_a_character_are_told_apart() {
    let row = |name: &str| ListedProcess { pid: 1, parent_pid: 0, exe_file: wide(name) };
    assert!(!exe_name_is_text(&row("\u{65e5}\u{672c}")));
    assert!(exe_name_is_text(&row("\u{65e5}x")));
    assert!(exe_name_is_text(&row("\u{65e5}.exe")));
    assert!(exe_name_is_text(&row("\u{65e5}")));
}

#[test]
fn the_console_mode_gains_and_loses_its_bits() {
    assert_eq!(vt_input_mode(0), 0x0298);
    assert_eq!(vt_input_mode(0x0007), 0x0298);
    assert_eq!(vt_input_mode(0x01f7), 0x03f8);
    assert_eq!(vt_input_mode(u32::MAX), 0xffff_fff8);
    assert_eq!(vt_input_mode(vt_input_mode(0x0167)), vt_input_mode(0x0167));
    assert_eq!(
        VT_INPUT_BITS,
        Console::ENABLE_VIRTUAL_TERMINAL_INPUT
            | Console::ENABLE_MOUSE_INPUT
            | Console::ENABLE_WINDOW_INPUT
            | Console::ENABLE_EXTENDED_FLAGS
    );
}

#[test]
fn the_console_is_switched_step_by_step() {
    assert_eq!(enable_vt_input(), VtInputStep::OpenStdInput);
    assert_eq!(on_std_input(0), VtInputStep::Succeed);
    assert_eq!(on_std_input(-1), VtInputStep::Succeed);
    assert_eq!(on_std_input(84), VtInputStep::ReadMode);
    assert_eq!(on_mode(None), VtInputStep::Succeed);
    assert_eq!(on_mode(Some(0x01e7)), VtInputStep::WriteMode(0x03f8));
    assert_eq!(on_mode_written(true), VtInputStep::Succeed);
    assert_eq!(on_mode_written(false), VtInputStep::FailWithLastError);
}

#[test]
fn processes_are_ended_by_taskkill() {
    let forced = vec![
        command("taskkill", &["/F", "/PID", "7"]),
        command("taskkill", &["/F", "/PID", "4294967295"]),
    ];
    assert_eq!(signal_processes(&[7, 0, u32::MAX], Signal::Kill), forced);
    assert_eq!(signal_processes(&[7, 0, u32::MAX], Signal::Terminate), forced);
    let hung_up = vec![command("taskkill", &["/F", "/PID", "1020"])];
    assert_eq!(signal_processes(&[1020], Signal::Hangup), hung_up);
    assert_eq!(signal_processes(&[0], Signal::Kill), Vec::new());
}

#[test]
fn a_process_is_looked_up_by_tasklist() {
    assert_eq!(process_query(0), None);
    assert_eq!(
        process_query(1234),
        Some(command("tasklist", &["/FI", "PID eq 1234", "/NH", "/FO", "CSV"]))
    );
}

#[test]
fn a_listed_process_exists() {
    let row = b"\"cmd.exe\",\"1234\",\"Console\",\"1\",\"5,212 K\"\r\n";
    assert!(process_exists(1234, Some(row)));
    assert!(!process_exists(123, Some(row)));
    assert!(!process_exists(234, Some(row)));
    assert!(!process_exists(1234, None));
    assert!(!process_exists(0, Some(b"\"0\"")));
    assert!(!process_exists(9, Some(b"")));
    assert!(process_exists(9, Some(b"\xff\xfe\"9\"\xff")));
    assert!(!process_exists(9, Some(b"\"\xff9\"")));
    assert!(listing_shows_pid("x\"10\"", 10));
    assert!(!listing_shows_pid("x\"10", 10));
}

#[test]
fn a_copy_succeeds_where_every_step_does() {
    let payload = b"two\nlines \xff";
    let (program, step) = write_clipboard(payload);
    assert_eq!(program, command("clip", &[]));
    assert_eq!(step, ClipboardStep::Spawn(payload));
    let step = step.next(true);
    assert_eq!(step, ClipboardStep::TakeInput(payload));
    let step = step.next(true);
    assert_eq!(step, ClipboardStep::Write(b"two\nlines \xff"));
    let step = step.next(true);
    assert_eq!(step, ClipboardStep::CloseAndWait);
    assert_eq!(step.next(true), ClipboardStep::Finish(true));
    assert_eq!(step.next(false), ClipboardStep::Finish(false));
    assert_eq!(ClipboardStep::Finish(true).next(false), ClipboardStep::Finish(true));
}

#[test]
fn a_failed_copy_leaves_no_program_behind() {
    assert_eq!(ClipboardStep::Spawn(b"x").next(false), ClipboardStep::Finish(false));
    for step in [ClipboardStep::TakeInput(b"x"), ClipboardStep::Write(b"x")] {
        let step = step.next(false);
        assert_eq!(step, ClipboardStep::Kill);
        let step = step.next(false);
        assert_eq!(step, ClipboardStep::Reap);
        assert_eq!(step.next(true), ClipboardStep::Finish(false));
    }
}

#[test]
fn what_windows_does_not_offer_is_empty() {
    assert_eq!(process_cwd(12), None);
    assert_eq!(session_processes(12), Vec::<u32>::new());
    assert_eq!(show_desktop_notification("title", Some("body")), Ok(false));
    assert_eq!(clipboard_commands(), Vec::<CommandLine>::new());
}
