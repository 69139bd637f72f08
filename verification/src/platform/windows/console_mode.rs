//! Switching the console's input side over to escape sequences.

use vstd::prelude::*;

verus! {

/// The console hands over whole lines.
pub const ENABLE_LINE_INPUT: u32 = 0x0002;

/// The console echoes what is typed.
pub const ENABLE_ECHO_INPUT: u32 = 0x0004;

/// The console handles Ctrl+C itself.
pub const ENABLE_PROCESSED_INPUT: u32 = 0x0001;

/// The bits that keep raw input away from the reader: line input, echo and
/// processed input.
pub const COOKED_INPUT_BITS: u32 = 0x0007;

/// The bits that the reader needs: escape sequences, mouse reports, window
/// sizes and the extended flags.
pub const VT_INPUT_BITS: u32 = 0x0298;

/// Reads `ENABLE_VIRTUAL_TERMINAL_INPUT` of `windows_sys`, the flag by which
/// input arrives as escape sequences. The contract states its value.
#[verifier::external_body]
fn virtual_terminal_input_flag() -> (flag: u32)
    ensures
        flag == 0x0200,
{
    windows_sys::Win32::System::Console::ENABLE_VIRTUAL_TERMINAL_INPUT
}

/// Reads `ENABLE_MOUSE_INPUT` of `windows_sys`, the flag by which mouse
/// events are reported. The contract states its value.
#[verifier::external_body]
fn mouse_input_flag() -> (flag: u32)
    ensures
        flag == 0x0010,
{
    windows_sys::Win32::System::Console::ENABLE_MOUSE_INPUT
}

/// Reads `ENABLE_WINDOW_INPUT` of `windows_sys`, the flag by which window
/// size changes are reported. The contract states its value.
#[verifier::external_body]
fn window_input_flag() -> (flag: u32)
    ensures
        flag == 0x0008,
{
    windows_sys::Win32::System::Console::ENABLE_WINDOW_INPUT
}

/// Reads `ENABLE_EXTENDED_FLAGS` of `windows_sys`, the flag by which the
/// extended bits of a mode take effect. The contract states its value.
#[verifier::external_body]
fn extended_flags_flag() -> (flag: u32)
    ensures
        flag == 0x0080,
{
    windows_sys::Win32::System::Console::ENABLE_EXTENDED_FLAGS
}

/// The console mode that raw escape sequence input takes, from the mode the
/// console is in: the cooked bits off, the reader's bits on, every other bit
/// as it is.
pub open spec fn vt_input_mode_of(mode: u32) -> u32 {
    (mode & !COOKED_INPUT_BITS) | VT_INPUT_BITS
}

/// Computes the mode to put the console in.
pub fn vt_input_mode(mode: u32) -> (new_mode: u32)
    ensures
        new_mode == vt_input_mode_of(mode),
{
    let vt = virtual_terminal_input_flag();
    let mouse = mouse_input_flag();
    let window = window_input_flag();
    let extended = extended_flags_flag();
    let new_mode: u32 = (mode & !(ENABLE_LINE_INPUT | ENABLE_ECHO_INPUT | ENABLE_PROCESSED_INPUT))
        | vt | mouse | window | extended;
    assert((mode & !(0x0002u32 | 0x0004u32 | 0x0001u32)) | 0x0200u32 | 0x0010u32 | 0x0008u32
        | 0x0080u32 == (mode & !0x0007u32) | 0x0298u32) by (bit_vector);
    new_mode
}

/// What to do next while the console is switched over.
#[derive(Clone, Copy, Debug, PartialEq, Eq, Structural)]
pub enum VtInputStep {
    /// Ask for the standard input handle.
    OpenStdInput,
    /// Ask for the console mode of that handle.
    ReadMode,
    /// Set the console mode to this value.
    WriteMode(u32),
    /// Report success.
    Succeed,
    /// Report the system's last error.
    FailWithLastError,
}

/// Begins to switch the console over.
pub fn enable_vt_input() -> (step: VtInputStep)
    ensures
        step == VtInputStep::OpenStdInput,
{
    VtInputStep::OpenStdInput
}

/// The step after asking for the standard input handle. Null and minus one
/// mean that there is no console to switch, which is no failure.
pub open spec fn after_std_input(handle: isize) -> VtInputStep {
    if handle == 0 || handle == -1 {
        VtInputStep::Succeed
    } else {
        VtInputStep::ReadMode
    }
}

/// The step after asking for the console mode. A handle without one is a
/// pipe or a file, from which bytes arrive as they are, so that is no
/// failure.
pub open spec fn after_mode(mode: Option<u32>) -> VtInputStep {
    match mode {
        Some(current) => VtInputStep::WriteMode(vt_input_mode_of(current)),
        None => VtInputStep::Succeed,
    }
}

/// The step after setting the mode.
pub open spec fn after_mode_written(written: bool) -> VtInputStep {
    if written {
        VtInputStep::Succeed
    } else {
        VtInputStep::FailWithLastError
    }
}

/// How switching the console over ends, by what the system answers to each
/// step that comes up.
pub open spec fn vt_input_outcome(
    handle: isize,
    mode: Option<u32>,
    written: bool,
) -> VtInputStep {
    if after_std_input(handle) == VtInputStep::ReadMode {
        if after_mode(mode) is WriteMode {
            after_mode_written(written)
        } else {
            after_mode(mode)
        }
    } else {
        after_std_input(handle)
    }
}

/// Goes on from the standard input handle.
pub fn on_std_input(handle: isize) -> (step: VtInputStep)
    ensures
        step == after_std_input(handle),
{
    if handle == 0 || handle == -1 {
        VtInputStep::Succeed
    } else {
        VtInputStep::ReadMode
    }
}

/// Goes on from the console mode.
pub fn on_mode(mode: Option<u32>) -> (step: VtInputStep)
    ensures
        step == after_mode(mode),
{
    match mode {
        Some(current) => VtInputStep::WriteMode(vt_input_mode(current)),
        None => VtInputStep::Succeed,
    }
}

/// Goes on from the attempt to set the mode.
pub fn on_mode_written(written: bool) -> (step: VtInputStep)
    ensures
        step == after_mode_written(written),
{
    if written {
        VtInputStep::Succeed
    } else {
        VtInputStep::FailWithLastError
    }
}

/// In the switched mode line input, echo and processed input are off, escape
/// sequences, mouse reports, window sizes and the extended flags are on, and
/// no other bit has changed.
pub proof fn vt_input_mode_sets_exactly_its_bits(mode: u32)
    ensures
        vt_input_mode_of(mode) & ENABLE_LINE_INPUT == 0,
        vt_input_mode_of(mode) & ENABLE_ECHO_INPUT == 0,
        vt_input_mode_of(mode) & ENABLE_PROCESSED_INPUT == 0,
        vt_input_mode_of(mode) & 0x0200 == 0x0200,
        vt_input_mode_of(mode) & 0x0010 == 0x0010,
        vt_input_mode_of(mode) & 0x0008 == 0x0008,
        vt_input_mode_of(mode) & 0x0080 == 0x0080,
        vt_input_mode_of(mode) & !(COOKED_INPUT_BITS | VT_INPUT_BITS) == mode & !(COOKED_INPUT_BITS
            | VT_INPUT_BITS),
{
    assert(({
        let new_mode = (mode & !0x0007u32) | 0x0298u32;
        &&& new_mode & 0x0002u32 == 0
        &&& new_mode & 0x0004u32 == 0
        &&& new_mode & 0x0001u32 == 0
        &&& new_mode & 0x0200u32 == 0x0200u32
        &&& new_mode & 0x0010u32 == 0x0010u32
        &&& new_mode & 0x0008u32 == 0x0008u32
        &&& new_mode & 0x0080u32 == 0x0080u32
        &&& new_mode & !(0x0007u32 | 0x0298u32) == mode & !(0x0007u32 | 0x0298u32)
    })) by (bit_vector);
}

/// Switching the console over is safe where standard input is no console:
/// it fails only where there is a console whose mode cannot be set.
pub proof fn switching_fails_only_at_setting_the_mode(
    handle: isize,
    mode: Option<u32>,
    written: bool,
)
    ensures
        vt_input_outcome(handle, mode, written) == VtInputStep::Succeed || vt_input_outcome(
            handle,
            mode,
            written,
        ) == VtInputStep::FailWithLastError,
        vt_input_outcome(handle, mode, written) == VtInputStep::FailWithLastError <==> (handle != 0
            && handle != -1 && mode is Some && !written),
{
}

/// Switching the console over twice leaves it as switching it once does.
pub proof fn vt_input_mode_is_idempotent(mode: u32)
    ensures
        vt_input_mode_of(vt_input_mode_of(mode)) == vt_input_mode_of(mode),
{
    assert((((mode & !0x0007u32) | 0x0298u32) & !0x0007u32) | 0x0298u32 == (mode & !0x0007u32)
        | 0x0298u32) by (bit_vector);
}

/// Whatever mode the console is in, a mode is written that has line input,
/// echo and processed input off, the reader's four bits on, and every other
/// bit as the console had it. A handle without a mode is left alone.
pub proof fn the_mode_written_has_exactly_its_bits(mode: u32)
    ensures
        after_mode(Some(mode)) matches VtInputStep::WriteMode(written) && {
            &&& written & 0x0007 == 0
            &&& written & 0x0298 == 0x0298
            &&& written & !0x029Fu32 == mode & !0x029Fu32
        },
        after_mode(None) == VtInputStep::Succeed,
{
    let written = vt_input_mode_of(mode);
    assert(({
        let new_mode = (mode & !0x0007u32) | 0x0298u32;
        &&& new_mode & 0x0007u32 == 0
        &&& new_mode & 0x0298u32 == 0x0298u32
        &&& new_mode & !0x029Fu32 == mode & !0x029Fu32
    })) by (bit_vector);
    assert(written == (mode & !0x0007u32) | 0x0298u32);
}

/// The computed mode is the one that is written, whatever the mode before.
pub proof fn the_computed_mode_is_written(mode: u32, computed: u32)
    requires
        computed == vt_input_mode_of(mode),
    ensures
        after_mode(Some(mode)) == VtInputStep::WriteMode(computed),
        computed & 0x0007 == 0,
        computed & 0x0298 == 0x0298,
        computed & !0x029Fu32 == mode & !0x029Fu32,
{
    the_mode_written_has_exactly_its_bits(mode);
}

/// Any handle but null and minus one has its mode read, and whether the mode
/// could be set decides between success and failure.
pub proof fn every_console_handle_is_asked_for_its_mode(handle: isize, written: bool)
    ensures
        handle == 0 || handle == -1 <==> after_std_input(handle) == VtInputStep::Succeed,
        handle < -1 || handle > 0 <==> after_std_input(handle) == VtInputStep::ReadMode,
        written <==> after_mode_written(written) == VtInputStep::Succeed,
        !written <==> after_mode_written(written) == VtInputStep::FailWithLastError,
{
}

} // verus!
