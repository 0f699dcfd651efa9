//! Color scheme and ANSI palette resolution.
use vstd::prelude::*;

verus! {

#[derive(Clone, Copy, PartialEq, Eq, Debug, Structural)]
pub struct Rgb {
    pub r: u8,
    pub g: u8,
    pub b: u8,
}

pub open spec fn rgb_of(r: int, g: int, b: int) -> Rgb {
    Rgb { r: r as u8, g: g as u8, b: b as u8 }
}

pub fn rgb(r: u8, g: u8, b: u8) -> (c: Rgb)
    ensures
        c == (Rgb { r, g, b }),
{
    Rgb { r, g, b }
}

/// A color scheme.
#[derive(Clone, Copy)]
pub struct Scheme {
    pub ansi: [Rgb; 16],
    pub fg: Rgb,
    pub bg: Rgb,
    pub cursor: Rgb,
}

/// The sixteen ANSI colors of the default scheme.
pub open spec fn campbell_ansi() -> Seq<Rgb> {
    seq![
        rgb_of(0x0c, 0x0c, 0x0c),
        rgb_of(0xc5, 0x0f, 0x1f),
        rgb_of(0x13, 0xa1, 0x0e),
        rgb_of(0xc1, 0x9c, 0x00),
        rgb_of(0x00, 0x37, 0xda),
        rgb_of(0x88, 0x17, 0x98),
        rgb_of(0x3a, 0x96, 0xdd),
        rgb_of(0xcc, 0xcc, 0xcc),
        rgb_of(0x76, 0x76, 0x76),
        rgb_of(0xe7, 0x48, 0x56),
        rgb_of(0x16, 0xc6, 0x0c),
        rgb_of(0xf9, 0xf1, 0xa5),
        rgb_of(0x3b, 0x78, 0xff),
        rgb_of(0xb4, 0x00, 0x9e),
        rgb_of(0x61, 0xd6, 0xd6),
        rgb_of(0xf2, 0xf2, 0xf2),
    ]
}

impl Scheme {
    /// Campbell, the default, with a tweaked background.
    pub fn campbell() -> (s: Scheme)
        ensures
            s.ansi@ == campbell_ansi(),
            s.fg == rgb_of(0xcc, 0xcc, 0xcc),
            s.bg == rgb_of(0x0c, 0x0c, 0x14),
            s.cursor == s.fg,
    {
        let ansi = [
            rgb(0x0c, 0x0c, 0x0c),
            rgb(0xc5, 0x0f, 0x1f),
            rgb(0x13, 0xa1, 0x0e),
            rgb(0xc1, 0x9c, 0x00),
            rgb(0x00, 0x37, 0xda),
            rgb(0x88, 0x17, 0x98),
            rgb(0x3a, 0x96, 0xdd),
            rgb(0xcc, 0xcc, 0xcc),
            rgb(0x76, 0x76, 0x76),
            rgb(0xe7, 0x48, 0x56),
            rgb(0x16, 0xc6, 0x0c),
            rgb(0xf9, 0xf1, 0xa5),
            rgb(0x3b, 0x78, 0xff),
            rgb(0xb4, 0x00, 0x9e),
            rgb(0x61, 0xd6, 0xd6),
            rgb(0xf2, 0xf2, 0xf2),
        ];
        assert(ansi@ =~= campbell_ansi());
        let fg = rgb(0xcc, 0xcc, 0xcc);
        Scheme { ansi, fg, bg: rgb(0x0c, 0x0c, 0x14), cursor: fg }
    }
}

/// One axis of the 6x6x6 color cube.
pub open spec fn cube_level(v: int) -> int {
    if v == 0 {
        0
    } else {
        55 + v * 40
    }
}

/// Entry of the 256-color palette: the scheme's ANSI colors, then the color
/// cube, then a ramp of grays.
pub open spec fn palette_entry(idx: u8, s: Scheme) -> Rgb {
    if idx < 16 {
        s.ansi@[idx as int]
    } else if idx < 232 {
        let i = idx - 16;
        rgb_of(cube_level(i / 36), cube_level(i / 6 % 6), cube_level(i % 6))
    } else {
        let v = 8 + (idx - 232) * 10;
        rgb_of(v, v, v)
    }
}

fn level(v: u8) -> (r: u8)
    requires
        v < 6,
    ensures
        r == cube_level(v as int),
{
    if v == 0 {
        0
    } else {
        55 + v * 40
    }
}

pub fn indexed(idx: u8, s: &Scheme) -> (c: Rgb)
    ensures
        c == palette_entry(idx, *s),
{
    if idx < 16 {
        return s.ansi[idx as usize];
    }
    if idx < 232 {
        let i: u8 = idx - 16;
        rgb(level(i / 36), level(i / 6 % 6), level(i % 6))
    } else {
        let v: u8 = 8 + (idx - 232) * 10;
        rgb(v, v, v)
    }
}

/// A color two thirds as bright, rounded down.
pub open spec fn dimmed(c: Rgb) -> Rgb {
    rgb_of(c.r as int * 2 / 3, c.g as int * 2 / 3, c.b as int * 2 / 3)
}

pub fn dim(c: Rgb) -> (r: Rgb)
    ensures
        r == dimmed(c),
{
    rgb(
        (c.r as u32 * 2 / 3) as u8,
        (c.g as u32 * 2 / 3) as u8,
        (c.b as u32 * 2 / 3) as u8,
    )
}

#[derive(Clone, Copy, PartialEq, Eq, Debug, Structural)]
pub enum NamedColor {
    Black,
    Red,
    Green,
    Yellow,
    Blue,
    Magenta,
    Cyan,
    White,
    BrightBlack,
    BrightRed,
    BrightGreen,
    BrightYellow,
    BrightBlue,
    BrightMagenta,
    BrightCyan,
    BrightWhite,
    Foreground,
    Background,
    Cursor,
    DimBlack,
    DimRed,
    DimGreen,
    DimYellow,
    DimBlue,
    DimMagenta,
    DimCyan,
    DimWhite,
    BrightForeground,
    DimForeground,
}

impl NamedColor {
    /// The slot of the color in the table of overrides.
    pub open spec fn slot(self) -> int {
        match self {
            NamedColor::Black => 0,
            NamedColor::Red => 1,
            NamedColor::Green => 2,
            NamedColor::Yellow => 3,
            NamedColor::Blue => 4,
            NamedColor::Magenta => 5,
            NamedColor::Cyan => 6,
            NamedColor::White => 7,
            NamedColor::BrightBlack => 8,
            NamedColor::BrightRed => 9,
            NamedColor::BrightGreen => 10,
            NamedColor::BrightYellow => 11,
            NamedColor::BrightBlue => 12,
            NamedColor::BrightMagenta => 13,
            NamedColor::BrightCyan => 14,
            NamedColor::BrightWhite => 15,
            NamedColor::Foreground => 256,
            NamedColor::Background => 257,
            NamedColor::Cursor => 258,
            NamedColor::DimBlack => 259,
            NamedColor::DimRed => 260,
            NamedColor::DimGreen => 261,
            NamedColor::DimYellow => 262,
            NamedColor::DimBlue => 263,
            NamedColor::DimMagenta => 264,
            NamedColor::DimCyan => 265,
            NamedColor::DimWhite => 266,
            NamedColor::BrightForeground => 267,
            NamedColor::DimForeground => 268,
        }
    }

    pub fn index(self) -> (r: usize)
        ensures
            r == self.slot(),
    {
        match self {
            NamedColor::Black => 0,
            NamedColor::Red => 1,
            NamedColor::Green => 2,
            NamedColor::Yellow => 3,
            NamedColor::Blue => 4,
            NamedColor::Magenta => 5,
            NamedColor::Cyan => 6,
            NamedColor::White => 7,
            NamedColor::BrightBlack => 8,
            NamedColor::BrightRed => 9,
            NamedColor::BrightGreen => 10,
            NamedColor::BrightYellow => 11,
            NamedColor::BrightBlue => 12,
            NamedColor::BrightMagenta => 13,
            NamedColor::BrightCyan => 14,
            NamedColor::BrightWhite => 15,
            NamedColor::Foreground => 256,
            NamedColor::Background => 257,
            NamedColor::Cursor => 258,
            NamedColor::DimBlack => 259,
            NamedColor::DimRed => 260,
            NamedColor::DimGreen => 261,
            NamedColor::DimYellow => 262,
            NamedColor::DimBlue => 263,
            NamedColor::DimMagenta => 264,
            NamedColor::DimCyan => 265,
            NamedColor::DimWhite => 266,
            NamedColor::BrightForeground => 267,
            NamedColor::DimForeground => 268,
        }
    }
}

/// A color as an application asks for it.
#[derive(Clone, Copy, PartialEq, Eq, Debug, Structural)]
pub enum Color {
    Named(NamedColor),
    Spec(Rgb),
    Indexed(u8),
}

/// Number of colors an application can override.
pub const COUNT: usize = 269;

/// Colors that an application has overridden (OSC 4, 10 and 11).
pub struct Colors {
    pub slots: Vec<Option<Rgb>>,
}

impl Colors {
    pub open spec fn wf(self) -> bool {
        self.slots@.len() == COUNT
    }
}

impl Default for Colors {
    fn default() -> (c: Colors)
        ensures
            c.wf(),
            forall|i: int| 0 <= i < COUNT ==> #[trigger] c.slots@[i] is None,
    {
        let mut slots: Vec<Option<Rgb>> = Vec::new();
        let mut i: usize = 0;
        while i < COUNT
            invariant
                i <= COUNT,
                slots@.len() == i,
                forall|j: int| 0 <= j < i ==> #[trigger] slots@[j] is None,
            decreases COUNT - i,
        {
            slots.push(None);
            i += 1;
        }
        Colors { slots }
    }
}

/// What a scheme shows for a named color. The eight plain, bright and dim
/// colors follow each other in the palette.
pub open spec fn scheme_color(name: NamedColor, s: Scheme) -> Rgb {
    let k = name.slot();
    if k < 16 {
        s.ansi@[k]
    } else if k == 256 {
        s.fg
    } else if k == 257 {
        s.bg
    } else if k == 258 {
        s.cursor
    } else if k < 267 {
        dimmed(s.ansi@[k - 259])
    } else if k == 267 {
        s.ansi@[15]
    } else {
        dimmed(s.fg)
    }
}

/// What a color is on the screen: an override first, then the scheme.
pub open spec fn resolved(color: Color, slots: Seq<Option<Rgb>>, s: Scheme) -> Rgb {
    match color {
        Color::Spec(c) => c,
        Color::Indexed(i) => match slots[i as int] {
            Some(c) => c,
            None => palette_entry(i, s),
        },
        Color::Named(name) => match slots[name.slot()] {
            Some(c) => c,
            None => scheme_color(name, s),
        },
    }
}

/// Resolve a color against overrides, then the scheme.
pub fn resolve(color: Color, colors: &Colors, s: &Scheme) -> (r: Rgb)
    requires
        colors.wf(),
    ensures
        r == resolved(color, colors.slots@, *s),
{
    match color {
        Color::Spec(c) => c,
        Color::Indexed(idx) => match colors.slots[idx as usize] {
            Some(c) => c,
            None => indexed(idx, s),
        },
        Color::Named(name) => named(name, colors, s),
    }
}

fn named(name: NamedColor, colors: &Colors, s: &Scheme) -> (r: Rgb)
    requires
        colors.wf(),
    ensures
        r == resolved(Color::Named(name), colors.slots@, *s),
{
    if let Some(c) = colors.slots[name.index()] {
        return c;
    }
    match name {
        NamedColor::Foreground => s.fg,
        NamedColor::Background => s.bg,
        NamedColor::Cursor => s.cursor,
        NamedColor::BrightForeground => s.ansi[15],
        NamedColor::DimForeground => dim(s.fg),
        NamedColor::DimBlack => dim(s.ansi[0]),
        NamedColor::DimRed => dim(s.ansi[1]),
        NamedColor::DimGreen => dim(s.ansi[2]),
        NamedColor::DimYellow => dim(s.ansi[3]),
        NamedColor::DimBlue => dim(s.ansi[4]),
        NamedColor::DimMagenta => dim(s.ansi[5]),
        NamedColor::DimCyan => dim(s.ansi[6]),
        NamedColor::DimWhite => dim(s.ansi[7]),
        _ => s.ansi[name.index()],
    }
}

/// The answer to an application that asks for the color `idx`.
pub open spec fn asked_color(idx: usize, s: Scheme) -> Rgb {
    if idx < 256 {
        palette_entry(idx as u8, s)
    } else if idx == 257 {
        s.bg
    } else if idx == 258 {
        s.cursor
    } else {
        s.fg
    }
}

pub fn color_request(idx: usize, s: &Scheme) -> (c: Rgb)
    ensures
        c == asked_color(idx, *s),
{
    if idx < 256 {
        indexed(idx as u8, s)
    } else if idx == 257 {
        s.bg
    } else if idx == 258 {
        s.cursor
    } else {
        s.fg
    }
}

/// An override beats every scheme.
pub proof fn law_override_wins(name: NamedColor, slots: Seq<Option<Rgb>>, a: Scheme, b: Scheme)
    requires
        slots.len() == COUNT,
        slots[name.slot()] is Some,
    ensures
        resolved(Color::Named(name), slots, a) == resolved(Color::Named(name), slots, b),
        resolved(Color::Named(name), slots, a) == slots[name.slot()]->0,
{
}

/// Without overrides the eight colors and their bright versions are the entries
/// 0 to 15 of the scheme, as if asked for by number; the dim ones are darker
/// versions of the plain ones; foreground, background and cursor are the
/// scheme's own.
pub proof fn law_scheme_colors(slots: Seq<Option<Rgb>>, s: Scheme)
    requires
        slots.len() == COUNT,
        forall|i: int| 0 <= i < COUNT ==> #[trigger] slots[i] is None,
    ensures
        ({
            let shown = |n: NamedColor| resolved(Color::Named(n), slots, s);
            &&& shown(NamedColor::Black) == s.ansi@[0] && shown(NamedColor::Red) == s.ansi@[1]
            &&& shown(NamedColor::Green) == s.ansi@[2] && shown(NamedColor::Yellow) == s.ansi@[3]
            &&& shown(NamedColor::Blue) == s.ansi@[4] && shown(NamedColor::Magenta) == s.ansi@[5]
            &&& shown(NamedColor::Cyan) == s.ansi@[6] && shown(NamedColor::White) == s.ansi@[7]
            &&& shown(NamedColor::BrightBlack) == s.ansi@[8] && shown(NamedColor::BrightRed)
                == s.ansi@[9]
            &&& shown(NamedColor::BrightGreen) == s.ansi@[10] && shown(NamedColor::BrightYellow)
                == s.ansi@[11]
            &&& shown(NamedColor::BrightBlue) == s.ansi@[12] && shown(NamedColor::BrightMagenta)
                == s.ansi@[13]
            &&& shown(NamedColor::BrightCyan) == s.ansi@[14] && shown(NamedColor::BrightWhite)
                == s.ansi@[15]
            &&& shown(NamedColor::Foreground) == s.fg && shown(NamedColor::Background) == s.bg
                && shown(NamedColor::Cursor) == s.cursor
            &&& shown(NamedColor::DimBlack) == dimmed(shown(NamedColor::Black))
            &&& shown(NamedColor::DimRed) == dimmed(shown(NamedColor::Red))
            &&& shown(NamedColor::DimGreen) == dimmed(shown(NamedColor::Green))
            &&& shown(NamedColor::DimYellow) == dimmed(shown(NamedColor::Yellow))
            &&& shown(NamedColor::DimBlue) == dimmed(shown(NamedColor::Blue))
            &&& shown(NamedColor::DimMagenta) == dimmed(shown(NamedColor::Magenta))
            &&& shown(NamedColor::DimCyan) == dimmed(shown(NamedColor::Cyan))
            &&& shown(NamedColor::DimWhite) == dimmed(shown(NamedColor::White))
            &&& shown(NamedColor::BrightForeground) == s.ansi@[15]
            &&& shown(NamedColor::DimForeground) == dimmed(s.fg)
            &&& forall|i: u8| i < 16 ==> #[trigger] resolved(Color::Indexed(i), slots, s)
                == s.ansi@[i as int]
        }),
{
}

/// A color given by its parts is shown as it is, whatever is overridden; a
/// color by number is the override for that number where there is one.
pub proof fn law_colors_as_asked(c: Rgb, i: u8, slots: Seq<Option<Rgb>>, s: Scheme)
    requires
        slots.len() == COUNT,
    ensures
        resolved(Color::Spec(c), slots, s) == c,
        slots[i as int] matches Some(o) ==> resolved(Color::Indexed(i), slots, s) == o,
        slots[1] matches Some(o) ==> resolved(Color::Named(NamedColor::Red), slots, s) == o,
        slots[256] matches Some(o) ==> resolved(Color::Named(NamedColor::Foreground), slots, s)
            == o,
        slots[257] matches Some(o) ==> resolved(Color::Named(NamedColor::Background), slots, s)
            == o,
        slots[258] matches Some(o) ==> resolved(Color::Named(NamedColor::Cursor), slots, s) == o,
{
}

/// The color cube: red changes with every 36th entry, green with every sixth,
/// blue with each; each of them goes 0, 95, 135, 175, 215, 255.
pub proof fn law_color_cube(r: int, g: int, b: int, s: Scheme)
    requires
        0 <= r < 6,
        0 <= g < 6,
        0 <= b < 6,
    ensures
        ({
            let steps = seq![0u8, 95, 135, 175, 215, 255];
            palette_entry((16 + 36 * r + 6 * g + b) as u8, s) == (Rgb {
                r: steps[r],
                g: steps[g],
                b: steps[b],
            })
        }),
{
    let i = 36 * r + 6 * g + b;
    assert(i / 36 == r && i / 6 % 6 == g && i % 6 == b) by (nonlinear_arith)
        requires
            i == 36 * r + 6 * g + b,
            0 <= r < 6,
            0 <= g < 6,
            0 <= b < 6,
    ;
}

/// The ramp of grays: the 24 entries from 232 on are gray, the first is 8, and
/// each is 10 brighter than the one before.
pub proof fn law_gray_ramp(i: u8, s: Scheme)
    requires
        232 <= i,
    ensures
        ({
            let c = palette_entry(i, s);
            &&& c.r == c.g == c.b
            &&& i == 232 ==> c.r == 8
            &&& i > 232 ==> c.r == palette_entry((i - 1) as u8, s).r + 10
        }),
{
}

/// An application that asks for a color is told what is shown where nothing is
/// overridden.
pub proof fn law_asked_is_shown(idx: usize, slots: Seq<Option<Rgb>>, s: Scheme)
    requires
        slots.len() == COUNT,
        forall|i: int| 0 <= i < COUNT ==> #[trigger] slots[i] is None,
    ensures
        idx < 256 ==> asked_color(idx, s) == resolved(Color::Indexed(idx as u8), slots, s),
        idx == 256 ==> asked_color(idx, s) == s.fg,
        idx == 257 ==> asked_color(idx, s) == s.bg,
        idx == 258 ==> asked_color(idx, s) == s.cursor,
{
}

/// A dimmed color has two thirds of each part, and no part brighter.
pub proof fn law_dimmed_is_darker(c: Rgb)
    ensures
        ({
            let d = dimmed(c);
            &&& 3 * d.r <= 2 * c.r < 3 * d.r + 3
            &&& 3 * d.g <= 2 * c.g < 3 * d.g + 3
            &&& 3 * d.b <= 2 * c.b < 3 * d.b + 3
        }),
{
}

/// The default colors are what their names say: red has most red, yellow as
/// little blue as any part, black and white are gray, and no bright color has
/// less in all than the plain one.
pub proof fn law_default_colors_fit_names(i: int)
    requires
        0 <= i < 8,
    ensures
        ({
            let c = campbell_ansi();
            let sum = |k: int| c[k].r + c[k].g + c[k].b;
            &&& c.len() == 16
            &&& sum(i + 8) > sum(i)
            &&& c[1].r > c[1].g && c[1].r > c[1].b && c[9].r > c[9].g && c[9].r > c[9].b
            &&& c[2].g > c[2].r && c[2].g > c[2].b && c[10].g > c[10].r && c[10].g > c[10].b
            &&& c[3].b < c[3].r && c[3].b < c[3].g && c[11].b < c[11].r && c[11].b < c[11].g
            &&& c[4].b > c[4].r && c[4].b > c[4].g && c[12].b > c[12].r && c[12].b > c[12].g
            &&& c[5].g < c[5].r && c[5].g < c[5].b && c[13].g < c[13].r && c[13].g < c[13].b
            &&& c[6].r < c[6].g && c[6].r < c[6].b && c[14].r < c[14].g && c[14].r < c[14].b
            &&& c[0].r == c[0].g == c[0].b && c[7].r == c[7].g == c[7].b && sum(7) > sum(0)
            &&& c[8].r == c[8].g == c[8].b && c[15].r == c[15].g == c[15].b && sum(15) > sum(8)
        }),
{
}

} // verus!
