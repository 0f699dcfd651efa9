//! What is drawn: a list of marks, each a shape or a piece of text in a
//! rectangle, in the order in which they are put on the window.
use vstd::prelude::*;
use crate::palette::Rgb;
use crate::pane_tree::{Area, PaneId, RectF};

verus! {

/// A color, and how much of it covers what is below, in thousandths.
#[derive(Clone, Copy, PartialEq, Eq, Debug, Structural)]
pub struct Paint {
    pub color: Rgb,
    pub alpha: u16,
}

/// A font.
#[derive(Clone, Copy, PartialEq, Eq, Debug, Structural)]
pub enum Face {
    Ui,
    Icons,
    Regular,
    Bold,
    Italic,
    BoldItalic,
}

/// Something drawn.
pub enum Mark {
    Fill(RectF, Paint),
    /// A rectangle with round corners of a radius.
    Rounded(RectF, i64, Paint),
    /// The outline of a rectangle, of a width.
    Frame(RectF, i64, Paint),
    /// A horizontal line from `x` to `to` at a height, one pixel wide.
    Line { x: i64, to: i64, y: i64, paint: Paint },
    /// A wave from `x` to `to` at a height.
    Wave { x: i64, to: i64, y: i64, paint: Paint },
    Text(String, Face, RectF, Paint),
    /// The cells of a terminal.
    Grid { pane: PaneId, at: RectF, focused: bool },
    /// The images of a terminal, clipped to its content.
    Images { pane: PaneId, at: RectF },
}

/// The mark that a `Mark` stands for.
pub enum Drawn {
    Fill(Area, Paint),
    Rounded(Area, int, Paint),
    Frame(Area, int, Paint),
    Line { x: int, to: int, y: int, paint: Paint },
    Wave { x: int, to: int, y: int, paint: Paint },
    Text(Seq<char>, Face, Area, Paint),
    Grid { pane: PaneId, at: Area, focused: bool },
    Images { pane: PaneId, at: Area },
}

impl View for Mark {
    type V = Drawn;

    open spec fn view(&self) -> Drawn {
        match self {
            Mark::Fill(r, p) => Drawn::Fill(r@, *p),
            Mark::Rounded(r, k, p) => Drawn::Rounded(r@, *k as int, *p),
            Mark::Frame(r, k, p) => Drawn::Frame(r@, *k as int, *p),
            Mark::Line { x, to, y, paint } => Drawn::Line {
                x: *x as int,
                to: *to as int,
                y: *y as int,
                paint: *paint,
            },
            Mark::Wave { x, to, y, paint } => Drawn::Wave {
                x: *x as int,
                to: *to as int,
                y: *y as int,
                paint: *paint,
            },
            Mark::Text(t, f, r, p) => Drawn::Text(t@, *f, r@, *p),
            Mark::Grid { pane, at, focused } => Drawn::Grid {
                pane: *pane,
                at: at@,
                focused: *focused,
            },
            Mark::Images { pane, at } => Drawn::Images { pane: *pane, at: at@ },
        }
    }
}

/// What a list of marks draws.
pub open spec fn drawing(v: Seq<Mark>) -> Seq<Drawn> {
    v.map_values(|m: Mark| m@)
}

/// The rectangle between four edges.
pub open spec fn edges(l: int, t: int, r: int, b: int) -> Area {
    Area { x: l, y: t, w: r - l, h: b - t }
}

/// A coordinate that can be drawn at.
pub open spec fn in_range(v: int) -> bool {
    -0x3000_0000_0000_0000 <= v <= 0x3000_0000_0000_0000
}

pub fn rect(l: i64, t: i64, r: i64, b: i64) -> (c: RectF)
    requires
        in_range(l as int),
        in_range(t as int),
        in_range(r as int),
        in_range(b as int),
    ensures
        c@ == edges(l as int, t as int, r as int, b as int),
{
    RectF { x: l, y: t, w: r - l, h: b - t }
}

pub open spec fn solid(color: Rgb) -> Paint {
    Paint { color, alpha: 1000 }
}

pub fn opaque(color: Rgb) -> (r: Paint)
    ensures
        r == solid(color),
{
    Paint { color, alpha: 1000 }
}

/// Half of an extent, rounded down.
pub fn half(v: i64) -> (r: i64)
    requires
        in_range(v as int),
    ensures
        r == v as int / 2,
{
    if v >= 0 {
        v / 2
    } else {
        -((-v + 1) / 2)
    }
}

/// Add a mark to a list.
pub fn put(v: &mut Vec<Mark>, m: Mark)
    ensures
        drawing(final(v)@) == drawing(old(v)@).push(m@),
{
    v.push(m);
    assert(drawing(v@) =~= drawing(old(v)@).push(m@));
}

} // verus!
