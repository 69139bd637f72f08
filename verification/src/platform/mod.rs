//! What differs from one operating system to the next.

pub mod host;
pub mod terminal;
pub mod windows;

use vstd::prelude::*;

verus! {

/// The operating system family a build runs on.
#[derive(Clone, Copy, Debug, PartialEq, Eq, Structural)]
pub enum HostOs {
    /// Linux, macOS and the other POSIX systems.
    Unix,
    /// Windows.
    Windows,
    /// Anything that is neither.
    Other,
}

/// What went wrong in a system call, as far as anything here asks.
#[derive(Clone, Copy, Debug, PartialEq, Eq, Structural)]
pub enum IoErrorKind {
    NotFound,
    ConnectionRefused,
    Interrupted,
    Other,
}

/// A failed system call.
#[derive(Clone, Copy, Debug, PartialEq, Eq, Structural)]
pub struct IoError {
    pub kind: IoErrorKind,
    /// The system's own number for the error, where it gave one.
    pub os_code: Option<i32>,
}

/// One process of a foreground job.
#[derive(Clone, Debug, PartialEq, Eq)]
pub struct ForegroundProcess {
    pub pid: u32,
    pub name: String,
    pub argv0: Option<String>,
    pub cmdline: Option<String>,
}

/// The processes that a pane's terminal currently belongs to.
#[derive(Clone, Debug, PartialEq, Eq)]
pub struct ForegroundJob {
    pub process_group_id: u32,
    pub processes: Vec<ForegroundProcess>,
}

/// How a process is asked to end.
#[derive(Clone, Copy, Debug, PartialEq, Eq, Structural)]
pub enum Signal {
    Hangup,
    Terminate,
    Kill,
}

/// A program to run and the arguments to run it with.
#[derive(Clone, Debug, PartialEq, Eq)]
pub struct CommandLine {
    pub program: String,
    pub args: Vec<String>,
}

/// What a command line says, as text.
#[verifier::ext_equal]
pub struct CommandText {
    pub program: Seq<char>,
    pub args: Seq<Seq<char>>,
}

impl View for CommandLine {
    type V = CommandText;

    open spec fn view(&self) -> CommandText {
        CommandText {
            program: self.program@,
            args: self.args@.map_values(|arg: String| arg@),
        }
    }
}

/// What a command line says is its program and its arguments, word for word
/// and in order.
pub proof fn a_command_line_says_its_words(command: CommandLine)
    ensures
        command@.program == command.program@,
        command@.args.len() == command.args@.len(),
        forall|i: int|
            0 <= i < command.args@.len() ==> (#[trigger] command.args@[i])@ == command@.args[i],
{
}

} // verus!
