//! What the terminal of the host can do.

use vstd::prelude::*;

use crate::platform::windows::console_mode;
use crate::platform::windows::console_mode::VtInputStep;
use crate::platform::HostOs;

verus! {

/// Begins to switch standard input over to escape sequences. Terminals send
/// them already everywhere but on Windows, so there is nothing to do there.
pub fn enable_vt_input(os: HostOs) -> (step: VtInputStep)
    ensures
        step == (if os == HostOs::Windows {
            VtInputStep::OpenStdInput
        } else {
            VtInputStep::Succeed
        }),
{
    match os {
        HostOs::Windows => console_mode::enable_vt_input(),
        HostOs::Unix => VtInputStep::Succeed,
        HostOs::Other => VtInputStep::Succeed,
    }
}

/// Whether mouse capture may be switched off without having been switched on
/// before. The Windows console has no earlier mode to return to then.
pub fn tolerates_unmatched_mouse_disable(os: HostOs) -> (tolerated: bool)
    ensures
        tolerated == (os != HostOs::Windows),
{
    os != HostOs::Windows
}

/// Whether the enhancement flags of the kitty keyboard protocol can be
/// pushed and popped. The Windows console has no such thing.
pub fn supports_keyboard_enhancement(os: HostOs) -> (supported: bool)
    ensures
        supported == (os != HostOs::Windows),
{
    os != HostOs::Windows
}

} // verus!
