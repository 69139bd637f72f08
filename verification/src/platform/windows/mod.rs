//! The Windows side of the platform interface.

pub mod clipboard;
pub mod console_mode;
pub mod process_tree;
pub mod snapshot;
pub mod task_tools;

use vstd::prelude::*;

use crate::platform::IoError;

verus! {

/// The working directory of a process. Windows offers no cheap way to learn
/// it, so it is never known.
pub fn process_cwd(_pid: u32) -> (cwd: Option<String>)
    ensures
        cwd is None,
{
    None
}

/// The processes of a pane's session. Windows has no sessions of that kind,
/// so there are none.
pub fn session_processes(_child_pid: u32) -> (pids: Vec<u32>)
    ensures
        pids@ == Seq::<u32>::empty(),
{
    Vec::new()
}

/// Whether a desktop notification was shown. Windows asks for more than a
/// console program can offer, so none ever is, and that is no failure.
pub fn show_desktop_notification(_title: &str, _body: Option<&str>) -> (shown: Result<
    bool,
    IoError,
>)
    ensures
        shown == Ok::<bool, IoError>(false),
{
    Ok(false)
}

} // verus!
