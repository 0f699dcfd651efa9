//! The colors of the window's own parts.
use vstd::prelude::*;
use crate::paint::Paint;
use crate::palette;
use crate::palette::Rgb;

verus! {

#[derive(Clone, Copy, PartialEq, Eq, Debug, Structural)]
pub enum Tone {
    ChromeBg,
    TabActive,
    TabInactive,
    TabText,
    TabTextActive,
    Accent,
    Divider,
    ToolbarBg,
    /// The close button under the pointer.
    CloseHot,
    /// A search without a match.
    Miss,
    /// The text of a hint.
    HintText,
    Black,
}

/// The color of a part.
pub open spec fn color_of(t: Tone) -> Rgb {
    match t {
        Tone::ChromeBg => palette::rgb_of(0x16, 0x16, 0x20),
        Tone::TabActive => palette::rgb_of(0x0c, 0x0c, 0x14),
        Tone::TabInactive => palette::rgb_of(0x1e, 0x1e, 0x2a),
        Tone::TabText => palette::rgb_of(0xb8, 0xbc, 0xc8),
        Tone::TabTextActive => palette::rgb_of(0xf0, 0xf0, 0xf4),
        Tone::Accent => palette::rgb_of(0x4f, 0x8f, 0xf7),
        Tone::Divider => palette::rgb_of(0x2a, 0x2a, 0x38),
        Tone::ToolbarBg => palette::rgb_of(0x1a, 0x1a, 0x26),
        Tone::CloseHot => palette::rgb_of(0xc4, 0x2b, 0x1c),
        Tone::Miss => palette::rgb_of(0xe7, 0x48, 0x56),
        Tone::HintText => palette::rgb_of(0x10, 0x10, 0x18),
        Tone::Black => palette::rgb_of(0, 0, 0),
    }
}

pub fn color(t: Tone) -> (r: Rgb)
    ensures
        r == color_of(t),
{
    match t {
        Tone::ChromeBg => palette::rgb(0x16, 0x16, 0x20),
        Tone::TabActive => palette::rgb(0x0c, 0x0c, 0x14),
        Tone::TabInactive => palette::rgb(0x1e, 0x1e, 0x2a),
        Tone::TabText => palette::rgb(0xb8, 0xbc, 0xc8),
        Tone::TabTextActive => palette::rgb(0xf0, 0xf0, 0xf4),
        Tone::Accent => palette::rgb(0x4f, 0x8f, 0xf7),
        Tone::Divider => palette::rgb(0x2a, 0x2a, 0x38),
        Tone::ToolbarBg => palette::rgb(0x1a, 0x1a, 0x26),
        Tone::CloseHot => palette::rgb(0xc4, 0x2b, 0x1c),
        Tone::Miss => palette::rgb(0xe7, 0x48, 0x56),
        Tone::HintText => palette::rgb(0x10, 0x10, 0x18),
        Tone::Black => palette::rgb(0, 0, 0),
    }
}

/// A part's color, covering what is below by `alpha` thousandths.
pub open spec fn wash(t: Tone, alpha: int) -> Paint {
    Paint { color: color_of(t), alpha: alpha as u16 }
}

/// A part's color, covering all.
pub open spec fn full(t: Tone) -> Paint {
    wash(t, 1000)
}

pub fn tint(t: Tone, alpha: u16) -> (r: Paint)
    ensures
        r == wash(t, alpha as int),
{
    Paint { color: color(t), alpha }
}

/// How bright a part is: the sum of its colors.
pub open spec fn brightness(t: Tone) -> int {
    color_of(t).r + color_of(t).g + color_of(t).b
}

/// What is read stands out from what it is on, and the active tab's text from
/// the others'; the grounds are dark and cool, and a miss and the close button
/// are red.
pub proof fn law_tones_are_readable()
    ensures
        brightness(Tone::TabTextActive) > brightness(Tone::TabText) > brightness(Tone::Accent)
            > brightness(Tone::TabInactive) + 300,
        brightness(Tone::TabInactive) > brightness(Tone::ToolbarBg) > brightness(Tone::ChromeBg)
            > brightness(Tone::TabActive) > brightness(Tone::Black),
        brightness(Tone::Divider) > brightness(Tone::TabInactive),
        brightness(Tone::HintText) + 300 < brightness(Tone::Accent),
        brightness(Tone::Black) == 0,
        color_of(Tone::CloseHot).r > color_of(Tone::CloseHot).g + color_of(Tone::CloseHot).b,
        color_of(Tone::Miss).r > color_of(Tone::Miss).g + color_of(Tone::Miss).b,
        color_of(Tone::Accent).b > color_of(Tone::Accent).g > color_of(Tone::Accent).r,
{
}

/// A wash lets through what it does not cover; a full tone nothing.
pub proof fn law_wash_covers(t: Tone, alpha: u16)
    ensures
        wash(t, alpha as int).alpha == alpha,
        full(t).alpha == 1000,
        wash(t, alpha as int).color == full(t).color,
{
}

} // verus!
