//! The modes a terminal application has switched on, as the bits of the
//! emulator's `TermMode`.
use vstd::prelude::*;

verus! {

pub const APP_CURSOR: u32 = 0x2;

pub const MOUSE_REPORT_CLICK: u32 = 0x8;

pub const BRACKETED_PASTE: u32 = 0x10;

pub const SGR_MOUSE: u32 = 0x20;

pub const MOUSE_MOTION: u32 = 0x40;

pub const FOCUS_IN_OUT: u32 = 0x800;

pub const ALT_SCREEN: u32 = 0x1000;

pub const MOUSE_DRAG: u32 = 0x2000;

pub const ALTERNATE_SCROLL: u32 = 0x8000;

pub const DISAMBIGUATE_ESC_CODES: u32 = 0x4_0000;

/// Any of the three mouse reporting modes.
pub const MOUSE_MODE: u32 = 0x2048;

/// The two modes in which the mouse is reported while it moves.
pub const MOUSE_MOVES: u32 = 0x2040;

/// Whether all bits of `flag` are on.
pub open spec fn mode_has(bits: u32, flag: u32) -> bool {
    bits & flag == flag
}

/// Whether some bit of `flag` is on.
pub open spec fn mode_meets(bits: u32, flag: u32) -> bool {
    bits & flag != 0
}

/// `TermMode::contains` of alacritty_terminal, on the bits of two modes: all
/// bits of the second are on in the first.
#[verifier::external_body]
pub(crate) fn contains(bits: u32, flag: u32) -> (r: bool)
    ensures
        r == mode_has(bits, flag),
{
    alacritty_terminal::term::TermMode::from_bits_retain(bits).contains(
        alacritty_terminal::term::TermMode::from_bits_retain(flag),
    )
}

/// `TermMode::intersects` of alacritty_terminal, on the bits of two modes: some
/// bit is on in both.
#[verifier::external_body]
pub(crate) fn intersects(bits: u32, flag: u32) -> (r: bool)
    ensures
        r == mode_meets(bits, flag),
{
    alacritty_terminal::term::TermMode::from_bits_retain(bits).intersects(
        alacritty_terminal::term::TermMode::from_bits_retain(flag),
    )
}

} // verus!
