//! Box-drawing and block-element characters as geometry that fills the cell
//! exactly: fonts never tile them cleanly across a grid of whole pixels.
use vstd::prelude::*;
use crate::paint;
use crate::pane_tree::{Area, RectF, DIP};

verus! {

/// The characters that are drawn as geometry.
pub open spec fn decorates(c: char) -> bool {
    '\u{2500}' <= c <= '\u{259f}'
}

pub fn is_decor(c: char) -> (r: bool)
    ensures
        r == decorates(c),
{
    '\u{2500}' <= c && c <= '\u{259f}'
}

/// The quarters that a quadrant character fills: upper left, upper right, lower
/// left, lower right.
#[derive(Clone, Copy, PartialEq, Eq, Debug, Structural)]
pub struct Quads {
    pub ul: bool,
    pub ur: bool,
    pub ll: bool,
    pub lr: bool,
}

pub open spec fn quads_of(c: char) -> Quads {
    let q = |ul: bool, ur: bool, ll: bool, lr: bool| Quads { ul, ur, ll, lr };
    if c == '\u{2596}' {
        q(false, false, true, false)
    } else if c == '\u{2597}' {
        q(false, false, false, true)
    } else if c == '\u{2598}' {
        q(true, false, false, false)
    } else if c == '\u{2599}' {
        q(true, false, true, true)
    } else if c == '\u{259a}' {
        q(true, false, false, true)
    } else if c == '\u{259b}' {
        q(true, true, true, false)
    } else if c == '\u{259c}' {
        q(true, true, false, true)
    } else if c == '\u{259d}' {
        q(false, true, false, false)
    } else if c == '\u{259e}' {
        q(false, true, true, false)
    } else {
        q(false, true, true, true)
    }
}

/// The arms of a line-drawing character, and how they are drawn.
#[derive(Clone, Copy, PartialEq, Eq, Debug, Structural)]
pub struct Arms {
    pub up: bool,
    pub down: bool,
    pub left: bool,
    pub right: bool,
    pub heavy: bool,
    pub double: bool,
}

pub open spec fn light(up: bool, down: bool, left: bool, right: bool) -> Option<Arms> {
    Some(Arms { up, down, left, right, heavy: false, double: false })
}

pub open spec fn heavy(up: bool, down: bool, left: bool, right: bool) -> Option<Arms> {
    Some(Arms { up, down, left, right, heavy: true, double: false })
}

pub open spec fn double(up: bool, down: bool, left: bool, right: bool) -> Option<Arms> {
    Some(Arms { up, down, left, right, heavy: false, double: true })
}

/// The light lines; dashed ones are drawn as solid, rounded corners as square.
pub open spec fn light_arms(c: char) -> Option<Arms> {
    if c == '\u{2500}' || c == '\u{254c}' || c == '\u{2504}' || c == '\u{2508}' {
        light(false, false, true, true)
    } else if c == '\u{2502}' || c == '\u{254e}' || c == '\u{2506}' || c == '\u{250a}' {
        light(true, true, false, false)
    } else if c == '\u{250c}' || c == '\u{256d}' {
        light(false, true, false, true)
    } else if c == '\u{2510}' || c == '\u{256e}' {
        light(false, true, true, false)
    } else if c == '\u{2514}' || c == '\u{2570}' {
        light(true, false, false, true)
    } else if c == '\u{2518}' || c == '\u{256f}' {
        light(true, false, true, false)
    } else if c == '\u{251c}' {
        light(true, true, false, true)
    } else if c == '\u{2524}' {
        light(true, true, true, false)
    } else if c == '\u{252c}' {
        light(false, true, true, true)
    } else if c == '\u{2534}' {
        light(true, false, true, true)
    } else if c == '\u{253c}' {
        light(true, true, true, true)
    } else if c == '\u{2574}' {
        light(false, false, true, false)
    } else if c == '\u{2575}' {
        light(true, false, false, false)
    } else if c == '\u{2576}' {
        light(false, false, false, true)
    } else if c == '\u{2577}' {
        light(false, true, false, false)
    } else {
        None
    }
}

/// The heavy lines.
pub open spec fn heavy_arms(c: char) -> Option<Arms> {
    if c == '\u{2501}' {
        heavy(false, false, true, true)
    } else if c == '\u{2503}' {
        heavy(true, true, false, false)
    } else if c == '\u{250f}' {
        heavy(false, true, false, true)
    } else if c == '\u{2513}' {
        heavy(false, true, true, false)
    } else if c == '\u{2517}' {
        heavy(true, false, false, true)
    } else if c == '\u{251b}' {
        heavy(true, false, true, false)
    } else if c == '\u{2523}' {
        heavy(true, true, false, true)
    } else if c == '\u{252b}' {
        heavy(true, true, true, false)
    } else if c == '\u{2533}' {
        heavy(false, true, true, true)
    } else if c == '\u{253b}' {
        heavy(true, false, true, true)
    } else if c == '\u{254b}' {
        heavy(true, true, true, true)
    } else {
        None
    }
}

/// The double lines.
pub open spec fn double_arms(c: char) -> Option<Arms> {
    if c == '\u{2550}' {
        double(false, false, true, true)
    } else if c == '\u{2551}' {
        double(true, true, false, false)
    } else if c == '\u{2554}' {
        double(false, true, false, true)
    } else if c == '\u{2557}' {
        double(false, true, true, false)
    } else if c == '\u{255a}' {
        double(true, false, false, true)
    } else if c == '\u{255d}' {
        double(true, false, true, false)
    } else if c == '\u{2560}' {
        double(true, true, false, true)
    } else if c == '\u{2563}' {
        double(true, true, true, false)
    } else if c == '\u{2566}' {
        double(false, true, true, true)
    } else if c == '\u{2569}' {
        double(true, false, true, true)
    } else if c == '\u{256c}' {
        double(true, true, true, true)
    } else {
        None
    }
}

/// The arms of a line-drawing character.
pub open spec fn arms_of(c: char) -> Option<Arms> {
    if light_arms(c) is Some {
        light_arms(c)
    } else if heavy_arms(c) is Some {
        heavy_arms(c)
    } else {
        double_arms(c)
    }
}

/// A filled rectangle of a cell, and how much it covers, in thousandths.
pub type Part = (Area, int);

pub open spec fn part(l: int, t: int, r: int, b: int) -> Part {
    (paint::edges(l, t, r, b), 1000)
}

/// The rectangles of a block element; nothing for another character.
pub open spec fn block_parts(c: char, w: int, h: int) -> Option<Seq<Part>> {
    if c == '\u{2588}' {
        Some(seq![part(0, 0, w, h)])
    } else if c == '\u{2580}' {
        Some(seq![part(0, 0, w, h / 2)])
    } else if c == '\u{2584}' {
        Some(seq![part(0, h / 2, w, h)])
    } else if c == '\u{258c}' {
        Some(seq![part(0, 0, w / 2, h)])
    } else if c == '\u{2590}' {
        Some(seq![part(w / 2, 0, w, h)])
    } else if c == '\u{2594}' {
        Some(seq![part(0, 0, w, h / 8)])
    } else if c == '\u{2595}' {
        Some(seq![part(w * 7 / 8, 0, w, h)])
    } else if c == '\u{2591}' {
        Some(seq![(paint::edges(0, 0, w, h), 250int)])
    } else if c == '\u{2592}' {
        Some(seq![(paint::edges(0, 0, w, h), 500int)])
    } else if c == '\u{2593}' {
        Some(seq![(paint::edges(0, 0, w, h), 750int)])
    } else if '\u{2581}' <= c <= '\u{2587}' {
        Some(seq![part(0, h * (8 - (c as int - 0x2580)) / 8, w, h)])
    } else if '\u{2589}' <= c <= '\u{258f}' {
        Some(seq![part(0, 0, w * (8 - (c as int - 0x2588)) / 8, h)])
    } else if '\u{2596}' <= c <= '\u{259f}' {
        Some(quad_parts(quads_of(c), w, h))
    } else {
        None
    }
}

pub open spec fn quad_parts(q: Quads, w: int, h: int) -> Seq<Part> {
    (if q.ul {
        seq![part(0, 0, w / 2, h / 2)]
    } else {
        Seq::empty()
    }) + (if q.ur {
        seq![part(w / 2, 0, w, h / 2)]
    } else {
        Seq::empty()
    }) + (if q.ll {
        seq![part(0, h / 2, w / 2, h)]
    } else {
        Seq::empty()
    }) + (if q.lr {
        seq![part(w / 2, h / 2, w, h)]
    } else {
        Seq::empty()
    })
}

/// Thickness of a line.
pub open spec fn thickness(heavy: bool, h: int) -> int {
    let (t, least) = if heavy {
        (h / 8, 2 * DIP)
    } else {
        (h / 16, DIP as int)
    };
    if t < least {
        least
    } else {
        t
    }
}

/// The rectangles of single lines: one for each arm, over the middle.
pub open spec fn single_parts(a: Arms, w: int, h: int) -> Seq<Part> {
    let t = thickness(a.heavy, h);
    let (cx, cy) = (w / 2, h / 2);
    (if a.left {
        seq![part(0, cy - t / 2, cx + t / 2, cy + t / 2)]
    } else {
        Seq::empty()
    }) + (if a.right {
        seq![part(cx - t / 2, cy - t / 2, w, cy + t / 2)]
    } else {
        Seq::empty()
    }) + (if a.up {
        seq![part(cx - t / 2, 0, cx + t / 2, cy + t / 2)]
    } else {
        Seq::empty()
    }) + (if a.down {
        seq![part(cx - t / 2, cy - t / 2, cx + t / 2, h)]
    } else {
        Seq::empty()
    })
}

/// Two thin horizontal lines, `off` above and below `cy`.
pub open spec fn pair_across(from: int, to: int, cy: int, off: int, tt: int) -> Seq<Part> {
    seq![
        part(from, cy - off - tt / 2, to, cy - off + tt / 2),
        part(from, cy + off - tt / 2, to, cy + off + tt / 2),
    ]
}

/// Two thin vertical lines, `off` left and right of `cx`.
pub open spec fn pair_down(from: int, to: int, cx: int, off: int, tt: int) -> Seq<Part> {
    seq![
        part(cx - off - tt / 2, from, cx - off + tt / 2, to),
        part(cx + off - tt / 2, from, cx + off + tt / 2, to),
    ]
}

/// The rectangles of double lines: two thin ones for each arm.
pub open spec fn double_parts(a: Arms, w: int, h: int) -> Seq<Part> {
    let t = thickness(a.heavy, h);
    let off = t * 3 / 2;
    let tt = t * 2 / 3;
    let (cx, cy) = (w / 2, h / 2);
    (if a.left {
        pair_across(0, cx + off, cy, off, tt)
    } else {
        Seq::empty()
    }) + (if a.right {
        pair_across(cx - off, w, cy, off, tt)
    } else {
        Seq::empty()
    }) + (if a.up {
        pair_down(0, cy + off, cx, off, tt)
    } else {
        Seq::empty()
    }) + (if a.down {
        pair_down(cy - off, h, cx, off, tt)
    } else {
        Seq::empty()
    })
}

/// The dot that stands for a character without geometry of its own.
pub open spec fn dot_part(w: int, h: int) -> Part {
    let t = if h / 10 < 1536 {
        1536
    } else {
        h / 10
    };
    part(w / 2 - t / 2, h / 2 - t / 2, w / 2 + t / 2, h / 2 + t / 2)
}

/// The rectangles of a box-drawing or block-element character in a cell of
/// `w` by `h`, from the cell's corner.
pub open spec fn decor_parts(c: char, w: int, h: int) -> Seq<Part> {
    match block_parts(c, w, h) {
        Some(p) => p,
        None => match arms_of(c) {
            Some(a) => if a.double {
                double_parts(a, w, h)
            } else {
                single_parts(a, w, h)
            },
            None => seq![dot_part(w, h)],
        },
    }
}

pub open spec fn parts(v: Seq<(RectF, u16)>) -> Seq<Part> {
    v.map_values(|p: (RectF, u16)| (p.0@, p.1 as int))
}

fn add_part(v: &mut Vec<(RectF, u16)>, l: i64, t: i64, r: i64, b: i64)
    requires
        paint::in_range(l as int),
        paint::in_range(t as int),
        paint::in_range(r as int),
        paint::in_range(b as int),
    ensures
        parts(final(v)@) == parts(old(v)@).push(part(l as int, t as int, r as int, b as int)),
{
    let rc = paint::rect(l, t, r, b);
    v.push((rc, 1000));
    assert(parts(v@) =~= parts(old(v)@).push((rc@, 1000)));
}

fn one_part(l: i64, t: i64, r: i64, b: i64) -> (v: Vec<(RectF, u16)>)
    requires
        paint::in_range(l as int),
        paint::in_range(t as int),
        paint::in_range(r as int),
        paint::in_range(b as int),
    ensures
        parts(v@) == seq![part(l as int, t as int, r as int, b as int)],
{
    let mut v: Vec<(RectF, u16)> = Vec::new();
    add_part(&mut v, l, t, r, b);
    assert(parts(v@) =~= seq![part(l as int, t as int, r as int, b as int)]);
    v
}

fn shade(w: i64, h: i64, alpha: u16) -> (v: Vec<(RectF, u16)>)
    requires
        paint::in_range(w as int),
        paint::in_range(h as int),
    ensures
        parts(v@) == seq![(paint::edges(0, 0, w as int, h as int), alpha as int)],
{
    let mut v: Vec<(RectF, u16)> = Vec::new();
    v.push((paint::rect(0, 0, w, h), alpha));
    assert(parts(v@) =~= seq![(paint::edges(0, 0, w as int, h as int), alpha as int)]);
    v
}

fn quads(c: char) -> (q: Quads)
    ensures
        q == quads_of(c),
{
    let (ul, ur, ll, lr) = if c == '\u{2596}' {
        (false, false, true, false)
    } else if c == '\u{2597}' {
        (false, false, false, true)
    } else if c == '\u{2598}' {
        (true, false, false, false)
    } else if c == '\u{2599}' {
        (true, false, true, true)
    } else if c == '\u{259a}' {
        (true, false, false, true)
    } else if c == '\u{259b}' {
        (true, true, true, false)
    } else if c == '\u{259c}' {
        (true, true, false, true)
    } else if c == '\u{259d}' {
        (false, true, false, false)
    } else if c == '\u{259e}' {
        (false, true, true, false)
    } else {
        (false, true, true, true)
    };
    Quads { ul, ur, ll, lr }
}

fn fill_quads(q: Quads, w: i64, h: i64) -> (v: Vec<(RectF, u16)>)
    requires
        0 <= w <= 0x100_0000,
        0 <= h <= 0x100_0000,
    ensures
        parts(v@) == quad_parts(q, w as int, h as int),
{
    let mut v: Vec<(RectF, u16)> = Vec::new();
    if q.ul {
        add_part(&mut v, 0, 0, w / 2, h / 2);
    }
    if q.ur {
        add_part(&mut v, w / 2, 0, w, h / 2);
    }
    if q.ll {
        add_part(&mut v, 0, h / 2, w / 2, h);
    }
    if q.lr {
        add_part(&mut v, w / 2, h / 2, w, h);
    }
    assert(parts(v@) =~= quad_parts(q, w as int, h as int));
    v
}

fn block(c: char, w: i64, h: i64) -> (r: Option<Vec<(RectF, u16)>>)
    requires
        0 <= w <= 0x100_0000,
        0 <= h <= 0x100_0000,
    ensures
        match r {
            Some(v) => block_parts(c, w as int, h as int) == Some(parts(v@)),
            None => block_parts(c, w as int, h as int) is None,
        },
{
    let k: i64 = c as u32 as i64;
    if c == '\u{2588}' {
        Some(one_part(0, 0, w, h))
    } else if c == '\u{2580}' {
        Some(one_part(0, 0, w, h / 2))
    } else if c == '\u{2584}' {
        Some(one_part(0, h / 2, w, h))
    } else if c == '\u{258c}' {
        Some(one_part(0, 0, w / 2, h))
    } else if c == '\u{2590}' {
        Some(one_part(w / 2, 0, w, h))
    } else if c == '\u{2594}' {
        Some(one_part(0, 0, w, h / 8))
    } else if c == '\u{2595}' {
        Some(one_part(w * 7 / 8, 0, w, h))
    } else if c == '\u{2591}' {
        Some(shade(w, h, 250))
    } else if c == '\u{2592}' {
        Some(shade(w, h, 500))
    } else if c == '\u{2593}' {
        Some(shade(w, h, 750))
    } else if '\u{2581}' <= c && c <= '\u{2587}' {
        let n: i64 = 8 - (k - 0x2580);
        assert(0 <= h * n <= 0x800_0000) by (nonlinear_arith)
            requires
                0 <= h <= 0x100_0000,
                0 <= n <= 8,
        ;
        Some(one_part(0, h * n / 8, w, h))
    } else if '\u{2589}' <= c && c <= '\u{258f}' {
        let n: i64 = 8 - (k - 0x2588);
        assert(0 <= w * n <= 0x800_0000) by (nonlinear_arith)
            requires
                0 <= w <= 0x100_0000,
                0 <= n <= 8,
        ;
        Some(one_part(0, 0, w * n / 8, h))
    } else if '\u{2596}' <= c && c <= '\u{259f}' {
        Some(fill_quads(quads(c), w, h))
    } else {
        None
    }
}

fn make_arms(up: bool, down: bool, left: bool, right: bool, heavy: bool, double: bool) -> (r:
    Option<Arms>)
    ensures
        r == Some(Arms { up, down, left, right, heavy, double }),
{
    Some(Arms { up, down, left, right, heavy, double })
}

fn find_light(c: char) -> (r: Option<Arms>)
    ensures
        r == light_arms(c),
{
    if c == '\u{2500}' || c == '\u{254c}' || c == '\u{2504}' || c == '\u{2508}' {
        make_arms(false, false, true, true, false, false)
    } else if c == '\u{2502}' || c == '\u{254e}' || c == '\u{2506}' || c == '\u{250a}' {
        make_arms(true, true, false, false, false, false)
    } else if c == '\u{250c}' || c == '\u{256d}' {
        make_arms(false, true, false, true, false, false)
    } else if c == '\u{2510}' || c == '\u{256e}' {
        make_arms(false, true, true, false, false, false)
    } else if c == '\u{2514}' || c == '\u{2570}' {
        make_arms(true, false, false, true, false, false)
    } else if c == '\u{2518}' || c == '\u{256f}' {
        make_arms(true, false, true, false, false, false)
    } else if c == '\u{251c}' {
        make_arms(true, true, false, true, false, false)
    } else if c == '\u{2524}' {
        make_arms(true, true, true, false, false, false)
    } else if c == '\u{252c}' {
        make_arms(false, true, true, true, false, false)
    } else if c == '\u{2534}' {
        make_arms(true, false, true, true, false, false)
    } else if c == '\u{253c}' {
        make_arms(true, true, true, true, false, false)
    } else if c == '\u{2574}' {
        make_arms(false, false, true, false, false, false)
    } else if c == '\u{2575}' {
        make_arms(true, false, false, false, false, false)
    } else if c == '\u{2576}' {
        make_arms(false, false, false, true, false, false)
    } else if c == '\u{2577}' {
        make_arms(false, true, false, false, false, false)
    } else {
        None
    }
}

fn find_heavy(c: char) -> (r: Option<Arms>)
    ensures
        r == heavy_arms(c),
{
    if c == '\u{2501}' {
        make_arms(false, false, true, true, true, false)
    } else if c == '\u{2503}' {
        make_arms(true, true, false, false, true, false)
    } else if c == '\u{250f}' {
        make_arms(false, true, false, true, true, false)
    } else if c == '\u{2513}' {
        make_arms(false, true, true, false, true, false)
    } else if c == '\u{2517}' {
        make_arms(true, false, false, true, true, false)
    } else if c == '\u{251b}' {
        make_arms(true, false, true, false, true, false)
    } else if c == '\u{2523}' {
        make_arms(true, true, false, true, true, false)
    } else if c == '\u{252b}' {
        make_arms(true, true, true, false, true, false)
    } else if c == '\u{2533}' {
        make_arms(false, true, true, true, true, false)
    } else if c == '\u{253b}' {
        make_arms(true, false, true, true, true, false)
    } else if c == '\u{254b}' {
        make_arms(true, true, true, true, true, false)
    } else {
        None
    }
}

fn find_double(c: char) -> (r: Option<Arms>)
    ensures
        r == double_arms(c),
{
    if c == '\u{2550}' {
        make_arms(false, false, true, true, false, true)
    } else if c == '\u{2551}' {
        make_arms(true, true, false, false, false, true)
    } else if c == '\u{2554}' {
        make_arms(false, true, false, true, false, true)
    } else if c == '\u{2557}' {
        make_arms(false, true, true, false, false, true)
    } else if c == '\u{255a}' {
        make_arms(true, false, false, true, false, true)
    } else if c == '\u{255d}' {
        make_arms(true, false, true, false, false, true)
    } else if c == '\u{2560}' {
        make_arms(true, true, false, true, false, true)
    } else if c == '\u{2563}' {
        make_arms(true, true, true, false, false, true)
    } else if c == '\u{2566}' {
        make_arms(false, true, true, true, false, true)
    } else if c == '\u{2569}' {
        make_arms(true, false, true, true, false, true)
    } else if c == '\u{256c}' {
        make_arms(true, true, true, true, false, true)
    } else {
        None
    }
}

fn find_arms(c: char) -> (r: Option<Arms>)
    ensures
        r == arms_of(c),
{
    if let Some(a) = find_light(c) {
        return Some(a);
    }
    if let Some(a) = find_heavy(c) {
        return Some(a);
    }
    find_double(c)
}

fn line_width(heavy: bool, h: i64) -> (t: i64)
    requires
        0 <= h <= 0x100_0000,
    ensures
        t == thickness(heavy, h as int),
        DIP <= t <= 0x100_0000,
{
    let (t, least): (i64, i64) = if heavy {
        (h / 8, 2 * DIP)
    } else {
        (h / 16, DIP)
    };
    if t < least {
        least
    } else {
        t
    }
}

fn single_lines(a: Arms, w: i64, h: i64) -> (v: Vec<(RectF, u16)>)
    requires
        0 <= w <= 0x100_0000,
        0 <= h <= 0x100_0000,
    ensures
        parts(v@) == single_parts(a, w as int, h as int),
{
    let t: i64 = line_width(a.heavy, h);
    let (cx, cy): (i64, i64) = (w / 2, h / 2);
    let mut v: Vec<(RectF, u16)> = Vec::new();
    if a.left {
        add_part(&mut v, 0, cy - t / 2, cx + t / 2, cy + t / 2);
    }
    if a.right {
        add_part(&mut v, cx - t / 2, cy - t / 2, w, cy + t / 2);
    }
    if a.up {
        add_part(&mut v, cx - t / 2, 0, cx + t / 2, cy + t / 2);
    }
    if a.down {
        add_part(&mut v, cx - t / 2, cy - t / 2, cx + t / 2, h);
    }
    assert(parts(v@) =~= single_parts(a, w as int, h as int));
    v
}

fn add_across(v: &mut Vec<(RectF, u16)>, from: i64, to: i64, cy: i64, off: i64, tt: i64)
    requires
        -0x1000_0000 <= from <= 0x1000_0000,
        -0x1000_0000 <= to <= 0x1000_0000,
        0 <= cy <= 0x1000_0000,
        0 <= off <= 0x1000_0000,
        0 <= tt <= 0x1000_0000,
    ensures
        parts(final(v)@) == parts(old(v)@) + pair_across(
            from as int,
            to as int,
            cy as int,
            off as int,
            tt as int,
        ),
{
    add_part(v, from, cy - off - tt / 2, to, cy - off + tt / 2);
    add_part(v, from, cy + off - tt / 2, to, cy + off + tt / 2);
    assert(parts(v@) =~= parts(old(v)@) + pair_across(
        from as int,
        to as int,
        cy as int,
        off as int,
        tt as int,
    ));
}

fn add_down(v: &mut Vec<(RectF, u16)>, from: i64, to: i64, cx: i64, off: i64, tt: i64)
    requires
        -0x1000_0000 <= from <= 0x1000_0000,
        -0x1000_0000 <= to <= 0x1000_0000,
        0 <= cx <= 0x1000_0000,
        0 <= off <= 0x1000_0000,
        0 <= tt <= 0x1000_0000,
    ensures
        parts(final(v)@) == parts(old(v)@) + pair_down(
            from as int,
            to as int,
            cx as int,
            off as int,
            tt as int,
        ),
{
    add_part(v, cx - off - tt / 2, from, cx - off + tt / 2, to);
    add_part(v, cx + off - tt / 2, from, cx + off + tt / 2, to);
    assert(parts(v@) =~= parts(old(v)@) + pair_down(
        from as int,
        to as int,
        cx as int,
        off as int,
        tt as int,
    ));
}

fn double_lines(a: Arms, w: i64, h: i64) -> (v: Vec<(RectF, u16)>)
    requires
        0 <= w <= 0x100_0000,
        0 <= h <= 0x100_0000,
    ensures
        parts(v@) == double_parts(a, w as int, h as int),
{
    let t: i64 = line_width(a.heavy, h);
    let off: i64 = t * 3 / 2;
    let tt: i64 = t * 2 / 3;
    let (cx, cy): (i64, i64) = (w / 2, h / 2);
    let mut v: Vec<(RectF, u16)> = Vec::new();
    assert(parts(v@) =~= Seq::empty());
    if a.left {
        add_across(&mut v, 0, cx + off, cy, off, tt);
    }
    if a.right {
        add_across(&mut v, cx - off, w, cy, off, tt);
    }
    if a.up {
        add_down(&mut v, 0, cy + off, cx, off, tt);
    }
    if a.down {
        add_down(&mut v, cy - off, h, cx, off, tt);
    }
    assert(parts(v@) =~= double_parts(a, w as int, h as int));
    v
}

/// The rectangles of a box-drawing or block-element character, from the corner
/// of its cell, and how much each covers.
pub fn draw_decor(c: char, w: i64, h: i64) -> (v: Vec<(RectF, u16)>)
    requires
        0 <= w <= 0x100_0000,
        0 <= h <= 0x100_0000,
    ensures
        parts(v@) == decor_parts(c, w as int, h as int),
{
    if let Some(v) = block(c, w, h) {
        return v;
    }
    match find_arms(c) {
        Some(a) => if a.double {
            double_lines(a, w, h)
        } else {
            single_lines(a, w, h)
        },
        None => {
            let t: i64 = if h / 10 < 1536 {
                1536
            } else {
                h / 10
            };
            one_part(w / 2 - t / 2, h / 2 - t / 2, w / 2 + t / 2, h / 2 + t / 2)
        },
    }
}

/// A full block covers its cell, and the lower and upper halves meet without a
/// seam.
pub proof fn law_halves_meet(w: int, h: int)
    requires
        0 <= w,
        0 <= h,
    ensures
        decor_parts('\u{2588}', w, h) == seq![part(0, 0, w, h)],
        decor_parts('\u{2580}', w, h)[0].0.h == decor_parts('\u{2584}', w, h)[0].0.y,
        decor_parts('\u{2580}', w, h)[0].0.h + decor_parts('\u{2584}', w, h)[0].0.h == h,
{
}

/// The arm of a line reaches the edge of its cell, so that the lines of
/// neighbouring cells join.
pub proof fn law_lines_join(c: char, w: int, h: int)
    requires
        arms_of(c) matches Some(a) && !a.double && a.left && a.right && !a.up && !a.down,
        block_parts(c, w, h) is None,
    ensures
        decor_parts(c, w, h).len() == 2,
        decor_parts(c, w, h)[0].0.x == 0,
        decor_parts(c, w, h)[1].0.x + decor_parts(c, w, h)[1].0.w == w,
{
}

/// Every rectangle lies near its cell.
pub open spec fn parts_near(v: Seq<Part>) -> bool {
    forall|i: int| 0 <= i < v.len() ==> near_part(#[trigger] v[i])
}

pub open spec fn near_part(p: Part) -> bool {
    &&& -0x1000_0000 <= p.0.x <= 0x1000_0000
    &&& -0x1000_0000 <= p.0.y <= 0x1000_0000
    &&& 0 <= p.1 <= 1000
}

pub proof fn lemma_parts_near(c: char, w: int, h: int)
    requires
        0 <= w <= 0x100_0000,
        0 <= h <= 0x100_0000,
    ensures
        parts_near(decor_parts(c, w, h)),
{
    if block_parts(c, w, h) is Some {
        lemma_block_near(c, w, h);
    } else if let Some(a) = arms_of(c) {
        if a.double {
            lemma_double_near(a, w, h);
        } else {
            lemma_single_near(a, w, h);
        }
    }
}

proof fn lemma_block_near(c: char, w: int, h: int)
    requires
        0 <= w <= 0x100_0000,
        0 <= h <= 0x100_0000,
        block_parts(c, w, h) is Some,
    ensures
        parts_near(block_parts(c, w, h)->0),
{
    let n = 8 - (c as int - 0x2580);
    if 0 <= n <= 8 {
        assert(0 <= h * n / 8 <= h) by (nonlinear_arith)
            requires
                0 <= h,
                0 <= n <= 8,
        ;
    }
    let q = quad_parts(quads_of(c), w, h);
    assert(parts_near(q)) by {
        assert forall|i: int| 0 <= i < q.len() implies near_part(#[trigger] q[i]) by {}
    }
}

proof fn lemma_single_near(a: Arms, w: int, h: int)
    requires
        0 <= w <= 0x100_0000,
        0 <= h <= 0x100_0000,
    ensures
        parts_near(single_parts(a, w, h)),
{
    let v = single_parts(a, w, h);
    assert forall|i: int| 0 <= i < v.len() implies near_part(#[trigger] v[i]) by {}
}

proof fn lemma_double_near(a: Arms, w: int, h: int)
    requires
        0 <= w <= 0x100_0000,
        0 <= h <= 0x100_0000,
    ensures
        parts_near(double_parts(a, w, h)),
{
    let v = double_parts(a, w, h);
    assert forall|i: int| 0 <= i < v.len() implies near_part(#[trigger] v[i]) by {}
}

/// Whether a point of the cell is covered by some rectangle.
pub open spec fn covered(v: Seq<Part>, x: int, y: int) -> bool {
    exists|i: int| 0 <= i < v.len() && #[trigger] part_has(v[i], x, y)
}

pub open spec fn part_has(p: Part, x: int, y: int) -> bool {
    p.0.x <= x < p.0.x + p.0.w && p.0.y <= y < p.0.y + p.0.h
}

/// Whether a quadrant block fills the upper left of its cell, the upper right, and
/// the two quarters below them.
pub open spec fn quarters(c: int) -> Seq<bool> {
    if c == 0x2596 {
        seq![false, false, true, false]
    } else if c == 0x2597 {
        seq![false, false, false, true]
    } else if c == 0x2598 {
        seq![true, false, false, false]
    } else if c == 0x2599 {
        seq![true, false, true, true]
    } else if c == 0x259a {
        seq![true, false, false, true]
    } else if c == 0x259b {
        seq![true, true, true, false]
    } else if c == 0x259c {
        seq![true, true, false, true]
    } else if c == 0x259d {
        seq![false, true, false, false]
    } else if c == 0x259e {
        seq![false, true, true, false]
    } else {
        seq![false, true, true, true]
    }
}

/// A quadrant block covers just the points of its quarters.
pub proof fn law_quadrants(c: char, w: int, h: int, x: int, y: int)
    requires
        0x2596 <= c as int <= 0x259f,
        0 <= x < w,
        0 <= y < h,
    ensures
        covered(decor_parts(c, w, h), x, y) <==> quarters(c as int)[(if x < w / 2 {
            0int
        } else {
            1
        }) + (if y < h / 2 {
            0int
        } else {
            2
        })],
{
    let q = quads_of(c);
    let v = decor_parts(c, w, h);
    let a = if q.ul {
        1int
    } else {
        0
    };
    let b = a + if q.ur {
        1int
    } else {
        0
    };
    let d = b + if q.ll {
        1int
    } else {
        0
    };
    if q.ul {
        assert(v[0] == part(0, 0, w / 2, h / 2));
    }
    if q.ur {
        assert(v[a] == part(w / 2, 0, w, h / 2));
    }
    if q.ll {
        assert(v[b] == part(0, h / 2, w / 2, h));
    }
    if q.lr {
        assert(v[d] == part(w / 2, h / 2, w, h));
    }
    if x < w / 2 && y < h / 2 && q.ul {
        assert(part_has(v[0], x, y));
    }
    if x >= w / 2 && y < h / 2 && q.ur {
        assert(part_has(v[a], x, y));
    }
    if x < w / 2 && y >= h / 2 && q.ll {
        assert(part_has(v[b], x, y));
    }
    if x >= w / 2 && y >= h / 2 && q.lr {
        assert(part_has(v[d], x, y));
    }
}

/// A block of eighths stands on the bottom of its cell, or at its left, and takes
/// as many eighths as it says; the eighths at the other edges are one each.
pub proof fn law_eighths(c: char, w: int, h: int, k: int)
    requires
        1 <= k <= 7,
        0 <= w,
        0 <= h,
    ensures
        c as int == 0x2580 + k ==> ({
            let v = decor_parts(c, w, h);
            &&& v.len() == 1 && v[0].1 == 1000
            &&& v[0].0.x == 0 && v[0].0.w == w && v[0].0.y + v[0].0.h == h
            &&& k * h <= 8 * v[0].0.h < k * h + 8
        }),
        c as int == 0x2590 - k ==> ({
            let v = decor_parts(c, w, h);
            &&& v.len() == 1 && v[0].1 == 1000
            &&& v[0].0.x == 0 && v[0].0.y == 0 && v[0].0.h == h
            &&& k * w - 8 < 8 * v[0].0.w <= k * w
        }),
        c as int == 0x2594 ==> ({
            let v = decor_parts(c, w, h);
            &&& v.len() == 1 && v[0].0.x == 0 && v[0].0.y == 0 && v[0].0.w == w
            &&& h - 8 < 8 * v[0].0.h <= h
        }),
        c as int == 0x2595 ==> ({
            let v = decor_parts(c, w, h);
            &&& v.len() == 1 && v[0].0.y == 0 && v[0].0.h == h && v[0].0.x + v[0].0.w == w
            &&& w <= 8 * v[0].0.w < w + 8
        }),
{
    let n = c as int;
    if k == 4 {
        assert(k * h == 4 * h && k * w == 4 * w) by (nonlinear_arith)
            requires
                k == 4,
        ;
    }
    if n == 0x2580 + k {
        assert(h * (8 - (n - 0x2580)) == 8 * h - k * h) by (nonlinear_arith)
            requires
                n == 0x2580 + k,
        ;
    }
    if n == 0x2590 - k {
        assert(w * (8 - (n - 0x2588)) == k * w) by (nonlinear_arith)
            requires
                n == 0x2590 - k,
        ;
    }
}

/// The halves take a half of their cell on their side; the shades cover all of it
/// by a quarter, a half and three quarters.
pub proof fn law_halves_and_shades(c: char, w: int, h: int, x: int, y: int)
    requires
        0 <= x < w,
        0 <= y < h,
    ensures
        c as int == 0x2580 ==> (covered(decor_parts(c, w, h), x, y) <==> y < h / 2),
        c as int == 0x2584 ==> (covered(decor_parts(c, w, h), x, y) <==> y >= h / 2),
        c as int == 0x258c ==> (covered(decor_parts(c, w, h), x, y) <==> x < w / 2),
        c as int == 0x2590 ==> (covered(decor_parts(c, w, h), x, y) <==> x >= w / 2),
        c as int == 0x2588 ==> covered(decor_parts(c, w, h), x, y),
        0x2591 <= c as int <= 0x2593 ==> decor_parts(c, w, h).len() == 1 && part_has(
            decor_parts(c, w, h)[0],
            x,
            y,
        ) && decor_parts(c, w, h)[0].1 == 250 * (c as int - 0x2590),
{
    let v = decor_parts(c, w, h);
    assert(v.len() == 1 ==> (covered(v, x, y) <==> part_has(v[0], x, y))) by {
        if v.len() == 1 && part_has(v[0], x, y) {
            assert(covered(v, x, y));
        }
    }
}

/// The ends that a line-drawing character has: left, right, up and down.
pub open spec fn line_ends(c: int) -> Option<(bool, bool, bool, bool)> {
    if c == 0x2500 || c == 0x2501 || c == 0x2550 || c == 0x2504 || c == 0x2508 || c == 0x254c {
        Some((true, true, false, false))
    } else if c == 0x2502 || c == 0x2503 || c == 0x2551 || c == 0x2506 || c == 0x250a || c
        == 0x254e {
        Some((false, false, true, true))
    } else if c == 0x250c || c == 0x250f || c == 0x2554 || c == 0x256d {
        Some((false, true, false, true))
    } else if c == 0x2510 || c == 0x2513 || c == 0x2557 || c == 0x256e {
        Some((true, false, false, true))
    } else if c == 0x2514 || c == 0x2517 || c == 0x255a || c == 0x2570 {
        Some((false, true, true, false))
    } else if c == 0x2518 || c == 0x251b || c == 0x255d || c == 0x256f {
        Some((true, false, true, false))
    } else if c == 0x251c || c == 0x2523 || c == 0x2560 {
        Some((false, true, true, true))
    } else if c == 0x2524 || c == 0x252b || c == 0x2563 {
        Some((true, false, true, true))
    } else if c == 0x252c || c == 0x2533 || c == 0x2566 {
        Some((true, true, false, true))
    } else if c == 0x2534 || c == 0x253b || c == 0x2569 {
        Some((true, true, true, false))
    } else if c == 0x253c || c == 0x254b || c == 0x256c {
        Some((true, true, true, true))
    } else if c == 0x2574 {
        Some((true, false, false, false))
    } else if c == 0x2575 {
        Some((false, false, true, false))
    } else if c == 0x2576 {
        Some((false, true, false, false))
    } else if c == 0x2577 {
        Some((false, false, false, true))
    } else {
        None
    }
}

/// A character of lines has an arm to each of its ends and no other. Those of the
/// double block are double, and the heavy ones heavy.
pub proof fn law_arms_of_line(c: char)
    ensures
        match line_ends(c as int) {
            Some((l, r, u, d)) => arms_of(c) matches Some(a) && a.left == l && a.right == r && a.up
                == u && a.down == d && a.double == (0x2550 <= c as int <= 0x256c) && (a.heavy ==> c
                as int % 4 == 3 || c as int == 0x2501),
            None => arms_of(c) is None,
        },
{
}

/// Whether some rectangle reaches an edge of the cell just where there is an arm to
/// it, and all of them cover in full.
pub open spec fn touches(v: Seq<Part>, a: Arms, w: int, h: int) -> bool {
    &&& a.left <==> exists|i: int| 0 <= i < v.len() && (#[trigger] v[i]).0.x == 0
    &&& a.right <==> exists|i: int| 0 <= i < v.len() && (#[trigger] v[i]).0.x + v[i].0.w == w
    &&& a.up <==> exists|i: int| 0 <= i < v.len() && (#[trigger] v[i]).0.y == 0
    &&& a.down <==> exists|i: int| 0 <= i < v.len() && (#[trigger] v[i]).0.y + v[i].0.h == h
    &&& forall|i: int| 0 <= i < v.len() ==> (#[trigger] v[i]).1 == 1000
}

/// Whether the rectangle with index `i` reaches the edge of its arm and no other:
/// those before `r` are of the left arm, and so on.
spec fn in_order(p: Part, i: int, r: int, u: int, d: int, w: int, h: int) -> bool {
    &&& p.1 == 1000
    &&& p.0.x == 0 <==> i < r
    &&& p.0.x + p.0.w == w <==> r <= i < u
    &&& p.0.y == 0 <==> u <= i < d
    &&& p.0.y + p.0.h == h <==> d <= i
}

proof fn lemma_touches(v: Seq<Part>, a: Arms, r: int, u: int, d: int, w: int, h: int)
    requires
        0 <= r <= u <= d <= v.len(),
        a.left == (0 < r),
        a.right == (r < u),
        a.up == (u < d),
        a.down == (d < v.len()),
        forall|i: int| 0 <= i < v.len() ==> in_order(#[trigger] v[i], i, r, u, d, w, h),
    ensures
        touches(v, a, w, h),
{
    if a.left {
        assert(in_order(v[0], 0, r, u, d, w, h));
    }
    if a.right {
        assert(in_order(v[r], r, r, u, d, w, h));
    }
    if a.up {
        assert(in_order(v[u], u, r, u, d, w, h));
    }
    if a.down {
        assert(in_order(v[d], d, r, u, d, w, h));
    }
}

/// The arms of a line reach the edges of the cell on their sides, and nothing
/// touches the other edges.
pub proof fn law_single_arms_reach_edges(a: Arms, w: int, h: int)
    requires
        16 * 1024 <= h <= 2 * w,
    ensures
        touches(single_parts(a, w, h), a, w, h),
{
    let v = single_parts(a, w, h);
    let t = thickness(a.heavy, h);
    assert(1024 <= t && 8 * t <= h && 4 * t <= w);
    let r = if a.left {
        1int
    } else {
        0
    };
    let u = r + if a.right {
        1int
    } else {
        0
    };
    let d = u + if a.up {
        1int
    } else {
        0
    };
    assert forall|i: int| 0 <= i < v.len() implies in_order(#[trigger] v[i], i, r, u, d, w, h) by {}
    lemma_touches(v, a, r, u, d, w, h);
}

/// The arms of a double line reach the edges of the cell on their sides, and nothing
/// touches the other edges.
pub proof fn law_double_arms_reach_edges(a: Arms, w: int, h: int)
    requires
        16 * 1024 <= h <= 2 * w,
    ensures
        touches(double_parts(a, w, h), a, w, h),
{
    let v = double_parts(a, w, h);
    let t = thickness(a.heavy, h);
    assert(1024 <= t && 8 * t <= h && 4 * t <= w);
    let r = if a.left {
        2int
    } else {
        0
    };
    let u = r + if a.right {
        2int
    } else {
        0
    };
    let d = u + if a.up {
        2int
    } else {
        0
    };
    let off = t * 3 / 2;
    let tt = t * 2 / 3;
    assert(off + tt / 2 < 2 * t);
    assert forall|i: int| 0 <= i < v.len() implies in_order(#[trigger] v[i], i, r, u, d, w, h) by {}
    lemma_touches(v, a, r, u, d, w, h);
}

/// A light line is a sixteenth of the cell's height thick, a heavy one twice
/// that, but never thinner than one and two units; it runs through the middle.
pub proof fn law_line_is_centered(a: Arms, w: int, h: int)
    requires
        32 * 1024 <= h <= 2 * w,
        !a.double,
        a.left || a.right,
    ensures
        ({
            let p = single_parts(a, w, h)[0].0;
            let t = if a.heavy {
                h / 8
            } else {
                h / 16
            };
            &&& t - 1 <= p.h <= t
            &&& p.y + p.h / 2 == h / 2
        }),
{
}

/// What has no geometry of its own is a dot in the middle of its cell.
pub proof fn law_dot_is_centered(c: char, w: int, h: int)
    requires
        line_ends(c as int) is None,
        block_parts(c, w, h) is None,
        arms_of(c) is None,
        0 <= w,
        0 <= h,
    ensures
        ({
            let v = decor_parts(c, w, h);
            &&& v.len() == 1
            &&& v[0].0.w == v[0].0.h
            &&& v[0].0.x + v[0].0.w / 2 == w / 2
            &&& v[0].0.y + v[0].0.h / 2 == h / 2
            &&& v[0].0.w >= 1536
        }),
{
}

} // verus!
