//! Copying to the clipboard through `clip`.

use vstd::prelude::*;

use crate::platform::{CommandLine, CommandText};

verus! {

/// What to do next while a payload is copied to the clipboard. The payload
/// is carried along until it is written.
#[derive(Clone, Copy, Debug, PartialEq, Eq)]
pub enum ClipboardStep<'a> {
    /// Start the program.
    Spawn(&'a [u8]),
    /// Take hold of its input.
    TakeInput(&'a [u8]),
    /// Write these bytes, and nothing else, to its input.
    Write(&'a [u8]),
    /// Close its input and wait for it to end well.
    CloseAndWait,
    /// Kill it.
    Kill,
    /// Wait for it to be gone.
    Reap,
    /// Stop, and report whether the payload was copied.
    Finish(bool),
}

/// The step after `step`, by whether that one went well.
pub open spec fn step_after<'a>(step: ClipboardStep<'a>, went_well: bool) -> ClipboardStep<'a> {
    match step {
        ClipboardStep::Spawn(bytes) => if went_well {
            ClipboardStep::TakeInput(bytes)
        } else {
            ClipboardStep::Finish(false)
        },
        ClipboardStep::TakeInput(bytes) => if went_well {
            ClipboardStep::Write(bytes)
        } else {
            ClipboardStep::Kill
        },
        ClipboardStep::Write(_) => if went_well {
            ClipboardStep::CloseAndWait
        } else {
            ClipboardStep::Kill
        },
        ClipboardStep::CloseAndWait => ClipboardStep::Finish(went_well),
        ClipboardStep::Kill => ClipboardStep::Reap,
        ClipboardStep::Reap => ClipboardStep::Finish(false),
        ClipboardStep::Finish(copied) => ClipboardStep::Finish(copied),
    }
}

/// The program that fills the clipboard from its input, and the step that a
/// copy of `bytes` begins with.
pub fn write_clipboard<'a>(bytes: &'a [u8]) -> (begun: (CommandLine, ClipboardStep<'a>))
    ensures
        begun.0@ == (CommandText { program: "clip"@, args: seq![] }),
        begun.1 == ClipboardStep::Spawn(bytes),
{
    let command = CommandLine { program: "clip".to_owned(), args: Vec::new() };
    assert(command@.args =~= seq![]);
    (command, ClipboardStep::Spawn(bytes))
}

impl<'a> ClipboardStep<'a> {
    /// The step after this one, by whether this one went well. Waiting goes
    /// well where the program could be waited for and reported success; how
    /// killing and reaping went does not matter.
    pub fn next(self, went_well: bool) -> (step: ClipboardStep<'a>)
        ensures
            step == step_after(self, went_well),
    {
        match self {
            ClipboardStep::Spawn(bytes) => if went_well {
                ClipboardStep::TakeInput(bytes)
            } else {
                ClipboardStep::Finish(false)
            },
            ClipboardStep::TakeInput(bytes) => if went_well {
                ClipboardStep::Write(bytes)
            } else {
                ClipboardStep::Kill
            },
            ClipboardStep::Write(_) => if went_well {
                ClipboardStep::CloseAndWait
            } else {
                ClipboardStep::Kill
            },
            ClipboardStep::CloseAndWait => ClipboardStep::Finish(went_well),
            ClipboardStep::Kill => ClipboardStep::Reap,
            ClipboardStep::Reap => ClipboardStep::Finish(false),
            ClipboardStep::Finish(copied) => ClipboardStep::Finish(copied),
        }
    }
}

/// Where a copy of `bytes` stands after its steps had these outcomes.
pub open spec fn after_outcomes<'a>(bytes: &'a [u8], outcomes: Seq<bool>) -> ClipboardStep<'a>
    decreases outcomes.len(),
{
    if outcomes.len() == 0 {
        ClipboardStep::Spawn(bytes)
    } else {
        step_after(after_outcomes(bytes, outcomes.drop_last()), outcomes.last())
    }
}

/// A started program is never left behind: a copy ends only by waiting for
/// it, unless it could not be started at all.
pub proof fn a_started_program_is_waited_for(step: ClipboardStep, went_well: bool)
    requires
        !(step is Finish),
        step_after(step, went_well) is Finish,
    ensures
        step is Spawn && !went_well || step is CloseAndWait || step is Reap,
{
}

/// Where a copy stands after each of its first five steps.
proof fn lemma_first_steps(bytes: &[u8], outcomes: Seq<bool>)
    ensures
        outcomes.len() == 0 ==> after_outcomes(bytes, outcomes) == ClipboardStep::Spawn(bytes),
        outcomes.len() == 1 ==> after_outcomes(bytes, outcomes) == (if outcomes[0] {
            ClipboardStep::TakeInput(bytes)
        } else {
            ClipboardStep::Finish(false)
        }),
        outcomes.len() == 2 ==> after_outcomes(bytes, outcomes) == (if !outcomes[0] {
            ClipboardStep::Finish(false)
        } else if outcomes[1] {
            ClipboardStep::Write(bytes)
        } else {
            ClipboardStep::Kill
        }),
        outcomes.len() == 3 ==> after_outcomes(bytes, outcomes) == (if !outcomes[0] {
            ClipboardStep::Finish(false)
        } else if !outcomes[1] {
            ClipboardStep::Reap
        } else if outcomes[2] {
            ClipboardStep::CloseAndWait
        } else {
            ClipboardStep::Kill
        }),
        outcomes.len() == 4 ==> after_outcomes(bytes, outcomes) == (if outcomes[0] && outcomes[1]
            && !outcomes[2] {
            ClipboardStep::Reap
        } else {
            ClipboardStep::Finish(outcomes[0] && outcomes[1] && outcomes[3])
        }),
        outcomes.len() >= 5 ==> after_outcomes(bytes, outcomes) == ClipboardStep::Finish(
            outcomes[0] && outcomes[1] && outcomes[2] && outcomes[3],
        ),
    decreases outcomes.len(),
{
    if outcomes.len() > 0 {
        lemma_first_steps(bytes, outcomes.drop_last());
    }
}

/// A copy ends after at most five steps, and it succeeds exactly where the
/// program started, gave its input, took the payload and ended well.
pub proof fn a_copy_ends_and_succeeds_by_its_steps(bytes: &[u8], outcomes: Seq<bool>)
    requires
        outcomes.len() >= 5,
    ensures
        after_outcomes(bytes, outcomes) == ClipboardStep::Finish(
            outcomes[0] && outcomes[1] && outcomes[2] && outcomes[3],
        ),
{
    lemma_first_steps(bytes, outcomes);
}

/// The program receives exactly the payload: a copy comes to write at one
/// point only, when the program has started and given its input, and what
/// it writes there is the payload.
pub proof fn the_payload_is_written_once_as_it_is(bytes: &[u8], outcomes: Seq<bool>)
    ensures
        after_outcomes(bytes, outcomes) is Write <==> outcomes.len() == 2 && outcomes[0]
            && outcomes[1],
        after_outcomes(bytes, outcomes) matches ClipboardStep::Write(written) ==> written@
            == bytes@,
{
    lemma_first_steps(bytes, outcomes);
}

/// A program is asked to end well only once it has taken the payload, and a
/// copy that succeeds has come that way.
pub proof fn success_comes_after_the_payload(step: ClipboardStep, went_well: bool)
    ensures
        step_after(step, went_well) is CloseAndWait <==> step is Write && went_well,
        step_after(step, went_well) == ClipboardStep::Finish(true) && !(step is Finish)
            <==> step is CloseAndWait && went_well,
{
}

/// The programs to try for the clipboard besides the built-in one. Windows
/// needs none.
pub fn clipboard_commands() -> (commands: Vec<CommandLine>)
    ensures
        commands@ == Seq::<CommandLine>::empty(),
{
    Vec::new()
}

/// A copy that goes well starts the program, takes hold of its input, writes
/// the payload as it is, closes and waits, and ends in success; how the wait
/// went is what the copy reports.
pub proof fn a_copy_that_goes_well_writes_and_waits(bytes: &[u8], ended_well: bool)
    ensures
        ({
            let spawned = step_after(ClipboardStep::Spawn(bytes), true);
            let held = step_after(spawned, true);
            let written = step_after(held, true);
            let waited = step_after(written, ended_well);
            &&& spawned matches ClipboardStep::TakeInput(payload) && payload@ == bytes@
            &&& held matches ClipboardStep::Write(payload) && payload@ == bytes@
            &&& written is CloseAndWait
            &&& waited == ClipboardStep::Finish(ended_well)
        }),
{
}

/// A program that cannot be started fails the copy at once. One that started
/// and gave no input, or did not take the payload, is killed, then waited
/// for, and the copy has failed, however killing and waiting went.
pub proof fn a_stuck_program_is_killed_and_reaped(bytes: &[u8], killed: bool, reaped: bool)
    ensures
        step_after(ClipboardStep::Spawn(bytes), false) == ClipboardStep::Finish(false),
        step_after(ClipboardStep::TakeInput(bytes), false) is Kill,
        step_after(ClipboardStep::Write(bytes), false) is Kill,
        step_after(ClipboardStep::Kill, killed) is Reap,
        step_after(step_after(ClipboardStep::Kill, killed), reaped) == ClipboardStep::Finish(false),
{
}

/// What a copy came to is final.
pub proof fn a_finished_copy_stays_finished(copied: bool, went_well: bool)
    ensures
        step_after(ClipboardStep::Finish(copied), went_well) == ClipboardStep::Finish(copied),
{
}

} // verus!
