//! The marks that draw a terminal's grid: backgrounds, text with its lines,
//! geometry, the cursor, and the position in the scrollback.
use vstd::prelude::*;
use crate::cells;
use crate::cells::{BatchModel, Decor, GridCell, Ground, Run, RunModel, Selected};
use crate::chrome;
use crate::decor;
use crate::modes;
use crate::paint;
use crate::paint::{Drawn, Mark, Paint};
use crate::palette;
use crate::palette::{Color, Colors, NamedColor, Rgb, Scheme};
use crate::pane_tree::{Area, RectF, DIP};
use crate::scrollback;
use crate::scrollback::Screen;
use crate::tabs;
use crate::tabs::CellSize;

verus! {

/// A coordinate on the grid of whole pixels nearest to `v`.
pub open spec fn snapped(v: int, dpi: u32) -> int {
    let d = if dpi < 48 {
        48
    } else {
        dpi as int
    };
    let m = 2 * v * d;
    let px = if m >= 0 {
        (m + chrome::INCH) / (2 * chrome::INCH)
    } else {
        -((-m + chrome::INCH) / (2 * chrome::INCH))
    };
    px * chrome::INCH / d
}

/// The origin and the cell size of a grid.
#[derive(Clone, Copy, PartialEq, Eq, Debug, Structural)]
pub struct Origin {
    pub x: i64,
    pub y: i64,
    pub cell: CellSize,
}

pub open spec fn origin_ok(o: Origin) -> bool {
    &&& -0x2800_0000_0000_0000 <= o.x <= 0x2800_0000_0000_0000
    &&& -0x2800_0000_0000_0000 <= o.y <= 0x2800_0000_0000_0000
    &&& tabs::cell_ok(o.cell)
}

pub open spec fn cell_x(o: Origin, col: int) -> int {
    o.x + col * o.cell.w
}

pub open spec fn cell_y(o: Origin, row: int) -> int {
    o.y + row * o.cell.h
}

pub open spec fn ground_mark(o: Origin, g: Ground) -> Drawn {
    Drawn::Fill(
        paint::edges(
            cell_x(o, g.col as int),
            cell_y(o, g.row as int),
            cell_x(o, g.col + g.width),
            cell_y(o, g.row + 1),
        ),
        paint::solid(g.color),
    )
}

/// The dots of an underline, from `x` on.
pub open spec fn dots(x: int, end: int, y: int, p: Paint) -> Seq<Drawn>
    decreases end - x + 2560,
{
    if x >= end {
        Seq::empty()
    } else {
        seq![
            Drawn::Fill(
                paint::edges(
                    x,
                    y - 512,
                    if x + DIP < end {
                        x + DIP
                    } else {
                        end
                    },
                    y + 512,
                ),
                p,
            ),
        ] + dots(x + 2560, end, y, p)
    }
}

/// The dashes of an underline, from `x` on.
pub open spec fn dashes(x: int, end: int, y: int, p: Paint) -> Seq<Drawn>
    decreases end - x + 5 * DIP,
{
    if x >= end {
        Seq::empty()
    } else {
        seq![
            Drawn::Line {
                x,
                to: if x + 3 * DIP < end {
                    x + 3 * DIP
                } else {
                    end
                },
                y,
                paint: p,
            },
        ] + dashes(x + 5 * DIP, end, y, p)
    }
}

/// The underline of a run: the first kind of wave, dots, dashes, double and
/// single that it asks for.
pub open spec fn underline_marks(flags: u16, x: int, end: int, y: int, p: Paint) -> Seq<Drawn> {
    if cells::flag_has(flags, cells::UNDERCURL) {
        seq![Drawn::Wave { x, to: end, y, paint: p }]
    } else if cells::flag_has(flags, cells::DOTTED_UNDERLINE) {
        dots(x, end, y, p)
    } else if cells::flag_has(flags, cells::DASHED_UNDERLINE) {
        dashes(x, end, y, p)
    } else if cells::flag_has(flags, cells::DOUBLE_UNDERLINE) {
        seq![
            Drawn::Line { x, to: end, y, paint: p },
            Drawn::Line { x, to: end, y: y - 2 * DIP, paint: p },
        ]
    } else if cells::flag_has(flags, cells::UNDERLINE) {
        seq![Drawn::Line { x, to: end, y, paint: p }]
    } else {
        Seq::empty()
    }
}

/// A run of text: the text, its underline, and the line through it.
pub open spec fn run_marks(o: Origin, r: RunModel) -> Seq<Drawn> {
    let x = cell_x(o, r.col as int);
    let y = cell_y(o, r.row as int);
    let end = x + r.width * o.cell.w;
    seq![
        Drawn::Text(
            r.text,
            cells::face_of(r.flags),
            paint::edges(x, y, x + (r.width + 2) * o.cell.w, y + 2 * o.cell.h),
            paint::solid(r.fg),
        ),
    ] + underline_marks(r.flags, x, end, y + o.cell.h - 1536, paint::solid(r.underline)) + (
    if cells::flag_has(r.flags, cells::STRIKEOUT) {
        seq![
            Drawn::Line {
                x,
                to: end,
                y: y + o.cell.h * 11 / 20,
                paint: paint::solid(r.fg),
            },
        ]
    } else {
        Seq::empty()
    })
}

pub open spec fn moved_part(p: decor::Part, x: int, y: int, color: Rgb) -> Drawn {
    Drawn::Fill(
        Area { x: p.0.x + x, y: p.0.y + y, ..p.0 },
        Paint { color, alpha: p.1 as u16 },
    )
}

pub open spec fn decor_marks(o: Origin, d: Decor) -> Seq<Drawn> {
    let x = cell_x(o, d.col as int);
    let y = cell_y(o, d.row as int);
    decor::decor_parts(d.c, o.cell.w as int, o.cell.h as int).map_values(
        |p: decor::Part| moved_part(p, x, y, d.fg),
    )
}

pub open spec fn ground_marks_upto(o: Origin, v: Seq<Ground>, n: int) -> Seq<Drawn>
    decreases n,
{
    if n <= 0 || n > v.len() {
        Seq::empty()
    } else {
        ground_marks_upto(o, v, n - 1).push(ground_mark(o, v[n - 1]))
    }
}

pub open spec fn run_marks_upto(o: Origin, v: Seq<RunModel>, n: int) -> Seq<Drawn>
    decreases n,
{
    if n <= 0 || n > v.len() {
        Seq::empty()
    } else {
        run_marks_upto(o, v, n - 1) + run_marks(o, v[n - 1])
    }
}

pub open spec fn decor_marks_upto(o: Origin, v: Seq<Decor>, n: int) -> Seq<Drawn>
    decreases n,
{
    if n <= 0 || n > v.len() {
        Seq::empty()
    } else {
        decor_marks_upto(o, v, n - 1) + decor_marks(o, v[n - 1])
    }
}

/// The shape of a text cursor.
#[derive(Clone, Copy, PartialEq, Eq, Debug, Structural)]
pub enum CursorShape {
    Block,
    Underline,
    Beam,
    HollowBlock,
    Hidden,
}

/// The text cursor, and the cell it is on.
#[derive(Clone, Copy, PartialEq, Eq, Debug, Structural)]
pub struct TextCursor {
    pub shape: CursorShape,
    pub line: i32,
    pub col: usize,
    pub c: char,
    pub flags: u16,
}

/// The cursor: hollow in a pane without the focus; a block shows its
/// character in the background color.
pub open spec fn cursor_marks(
    o: Origin,
    k: TextCursor,
    offset: int,
    focused: bool,
    color: Rgb,
    bg: Rgb,
) -> Seq<Drawn> {
    let x = cell_x(o, k.col as int);
    let y = cell_y(o, k.line + offset);
    let w = o.cell.w as int;
    let h = o.cell.h as int;
    let at = paint::edges(x, y, x + cells::columns(k.flags) * w, y + h);
    let p = paint::solid(color);
    if k.shape == CursorShape::Hidden || k.line + offset < 0 {
        Seq::empty()
    } else if !focused || k.shape == CursorShape::HollowBlock {
        seq![Drawn::Frame(at, DIP as int, p)]
    } else if k.shape == CursorShape::Beam {
        seq![Drawn::Fill(paint::edges(x, y, x + 2 * DIP, y + h), p)]
    } else if k.shape == CursorShape::Underline {
        seq![Drawn::Fill(paint::edges(x, y + h - 2560, x + w, y + h), p)]
    } else {
        seq![Drawn::Fill(at, p)] + (if k.c != ' ' {
            seq![
                Drawn::Text(
                    seq![k.c],
                    cells::face_of(k.flags),
                    paint::edges(x, y, x + 3 * w, y + 2 * h),
                    paint::solid(bg),
                ),
            ]
        } else {
            Seq::empty()
        })
    }
}

/// The mark that shows how far the display is scrolled up; none at the end of
/// the scrollback, and none on an alternate screen.
pub open spec fn thumb_marks(a: Area, s: Screen) -> Seq<Drawn> {
    if s.offset <= 0 || modes::mode_has(s.mode, modes::ALT_SCREEN) {
        Seq::empty()
    } else {
        let total = s.history + s.rows;
        let view = s.rows * a.h / total;
        let h = if view < 24 * DIP {
            24 * DIP
        } else {
            view
        };
        let above = if total - s.offset - s.rows < 0 {
            0
        } else {
            total - s.offset - s.rows
        };
        let top = a.y + above * (a.h - h) / total;
        seq![
            Drawn::Rounded(
                paint::edges(a.x + a.w - 7 * DIP, top, a.x + a.w - 3 * DIP, top + h),
                2 * DIP as int,
                Paint { color: palette::rgb_of(0xaa, 0xaa, 0xbb), alpha: 450 },
            ),
        ]
    }
}

/// Everything of a terminal's grid, in the order in which it is drawn.
pub open spec fn grid_marks(
    a: Area,
    o: Origin,
    b: BatchModel,
    k: TextCursor,
    s: Screen,
    focused: bool,
    cursor: Rgb,
    scheme: Scheme,
) -> Seq<Drawn> {
    seq![Drawn::Fill(a, paint::solid(scheme.bg))] + ground_marks_upto(
        o,
        b.grounds,
        b.grounds.len() as int,
    ) + run_marks_upto(o, b.runs, b.runs.len() as int) + decor_marks_upto(
        o,
        b.decors,
        b.decors.len() as int,
    ) + cursor_marks(o, k, s.offset as int, focused, cursor, scheme.bg) + thumb_marks(a, s)
}

pub fn snap(v: i64, dpi: u32) -> (r: i64)
    requires
        chrome::dpi_ok(dpi),
        -0x2000_0000_0000_0000 - 0x1000 <= v <= 0x2000_0000_0000_0000 + 0x1000,
    ensures
        r == snapped(v as int, dpi),
        -0x2800_0000_0000_0000 <= r <= 0x2800_0000_0000_0000,
{
    let d: i128 = if dpi < 48 {
        48
    } else {
        dpi as i128
    };
    let w: i128 = 2 * (v as i128);
    assert(-0x4000_0000_0000_4000 * 0xffff <= w * d <= 0x4000_0000_0000_4000 * 0xffff)
        by (nonlinear_arith)
        requires
            -0x4000_0000_0000_4000 <= w <= 0x4000_0000_0000_4000,
            0 <= d <= 0xffff,
    ;
    let m: i128 = w * d;
    let px: i128 = if m >= 0 {
        (m + 98304) / 196608
    } else {
        -((-m + 98304) / 196608)
    };
    let n: i128 = px * 98304;
    proof {
        lemma_snap_bound(v as int, m as int, px as int, n as int, d as int);
    }
    if n >= 0 {
        (n / d) as i64
    } else {
        proof {
            chrome::lemma_floor(n as int, d as int);
        }
        (-((-n + (d - 1)) / d)) as i64
    }
}

proof fn lemma_snap_bound(v: int, m: int, px: int, n: int, d: int)
    requires
        48 <= d <= 0xffff,
        m == 2 * v * d,
        -0x2000_0000_0000_1000 <= v <= 0x2000_0000_0000_1000,
        px == (if m >= 0 {
            (m + 98304) / 196608
        } else {
            -((-m + 98304) / 196608)
        }),
        n == px * 98304,
    ensures
        -0x2800_0000_0000_0000 <= n / d <= 0x2800_0000_0000_0000,
{
    assert(v * d - 98304 <= n <= v * d + 98304) by {
        assert(m == 2 * (v * d)) by (nonlinear_arith)
            requires
                m == 2 * v * d,
        ;
    }
    let q = n / d;
    assert(n == d * q + n % d && 0 <= n % d < d) by (nonlinear_arith)
        requires
            q == n / d,
            d > 0,
    ;
    assert(-0x2800_0000_0000_0000 <= q <= 0x2800_0000_0000_0000) by (nonlinear_arith)
        requires
            48 <= d <= 0xffff,
            n - d < d * q <= n,
            v * d - 98304 <= n <= v * d + 98304,
            -0x2000_0000_0000_1000 <= v <= 0x2000_0000_0000_1000,
    ;
}

fn x_at(o: &Origin, col: usize) -> (r: i64)
    requires
        origin_ok(*o),
        col <= 0x4000_0008,
    ensures
        r == cell_x(*o, col as int),
        o.x <= r <= o.x + 0x80_0000_0000_0000,
{
    let k: i64 = col as i64;
    let w: i64 = o.cell.w;
    assert(0 <= k * w <= 0x4000_0008 * 0x100_0000) by (nonlinear_arith)
        requires
            0 <= k <= 0x4000_0008,
            0 <= w <= 0x100_0000,
    ;
    o.x + k * w
}

fn y_at(o: &Origin, row: usize) -> (r: i64)
    requires
        origin_ok(*o),
        row <= 0x4000_0008,
    ensures
        r == cell_y(*o, row as int),
        o.y <= r <= o.y + 0x80_0000_0000_0000,
{
    let k: i64 = row as i64;
    let h: i64 = o.cell.h;
    assert(0 <= k * h <= 0x4000_0008 * 0x100_0000) by (nonlinear_arith)
        requires
            0 <= k <= 0x4000_0008,
            0 <= h <= 0x100_0000,
    ;
    o.y + k * h
}

fn put_dots(v: &mut Vec<Mark>, x: i64, end: i64, y: i64, p: Paint)
    requires
        -0x2800_0000_0000_0000 <= x <= 0x2900_0000_0000_0000,
        -0x2800_0000_0000_0000 <= end <= 0x2900_0000_0000_0000,
        -0x2900_0000_0000_0000 <= y <= 0x2900_0000_0000_0000,
    ensures
        paint::drawing(final(v)@) == paint::drawing(old(v)@) + dots(
            x as int,
            end as int,
            y as int,
            p,
        ),
{
    let mut at: i64 = x;
    assert(dots(x as int, end as int, y as int, p) =~= Seq::<Drawn>::empty() + dots(
        x as int,
        end as int,
        y as int,
        p,
    ));
    while at < end
        invariant
            x <= at <= end + 2560 || at == x,
            -0x2800_0000_0000_0000 <= x <= 0x2900_0000_0000_0000,
            -0x2800_0000_0000_0000 <= end <= 0x2900_0000_0000_0000,
            -0x2900_0000_0000_0000 <= y <= 0x2900_0000_0000_0000,
            paint::drawing(v@) + dots(at as int, end as int, y as int, p) == paint::drawing(
                old(v)@,
            ) + dots(x as int, end as int, y as int, p),
        decreases end - at + 2560,
    {
        let to: i64 = if at + DIP < end {
            at + DIP
        } else {
            end
        };
        let ghost before = paint::drawing(v@);
        let r = paint::rect(at, y - 512, to, y + 512);
        paint::put(v, Mark::Fill(r, p));
        proof {
            let rest = dots(at + 2560, end as int, y as int, p);
            assert(before.push(Drawn::Fill(r@, p)) + rest =~= before + dots(
                at as int,
                end as int,
                y as int,
                p,
            ));
        }
        at += 2560;
    }
    assert(paint::drawing(v@) + dots(at as int, end as int, y as int, p) =~= paint::drawing(v@));
}

fn put_dashes(v: &mut Vec<Mark>, x: i64, end: i64, y: i64, p: Paint)
    requires
        -0x2800_0000_0000_0000 <= x <= 0x2900_0000_0000_0000,
        -0x2800_0000_0000_0000 <= end <= 0x2900_0000_0000_0000,
    ensures
        paint::drawing(final(v)@) == paint::drawing(old(v)@) + dashes(
            x as int,
            end as int,
            y as int,
            p,
        ),
{
    let mut at: i64 = x;
    while at < end
        invariant
            x <= at <= end + 5 * DIP || at == x,
            -0x2800_0000_0000_0000 <= x <= 0x2900_0000_0000_0000,
            -0x2800_0000_0000_0000 <= end <= 0x2900_0000_0000_0000,
            paint::drawing(v@) + dashes(at as int, end as int, y as int, p) == paint::drawing(
                old(v)@,
            ) + dashes(x as int, end as int, y as int, p),
        decreases end - at + 5 * DIP,
    {
        let to: i64 = if at + 3 * DIP < end {
            at + 3 * DIP
        } else {
            end
        };
        let ghost before = paint::drawing(v@);
        let m = Mark::Line { x: at, to, y, paint: p };
        paint::put(v, m);
        proof {
            let rest = dashes(at + 5 * DIP, end as int, y as int, p);
            assert(before.push(m@) + rest =~= before + dashes(
                at as int,
                end as int,
                y as int,
                p,
            ));
        }
        at += 5 * DIP;
    }
    assert(paint::drawing(v@) + dashes(at as int, end as int, y as int, p) =~= paint::drawing(
        v@,
    ));
}

fn put_underline(v: &mut Vec<Mark>, flags: u16, x: i64, end: i64, y: i64, p: Paint)
    requires
        -0x2800_0000_0000_0000 <= x <= 0x2900_0000_0000_0000,
        -0x2800_0000_0000_0000 <= end <= 0x2900_0000_0000_0000,
        -0x2900_0000_0000_0000 <= y <= 0x2900_0000_0000_0000,
    ensures
        paint::drawing(final(v)@) == paint::drawing(old(v)@) + underline_marks(
            flags,
            x as int,
            end as int,
            y as int,
            p,
        ),
{
    let ghost before = paint::drawing(v@);
    if cells::contains(flags, cells::UNDERCURL) {
        paint::put(v, Mark::Wave { x, to: end, y, paint: p });
    } else if cells::contains(flags, cells::DOTTED_UNDERLINE) {
        put_dots(v, x, end, y, p);
    } else if cells::contains(flags, cells::DASHED_UNDERLINE) {
        put_dashes(v, x, end, y, p);
    } else if cells::contains(flags, cells::DOUBLE_UNDERLINE) {
        paint::put(v, Mark::Line { x, to: end, y, paint: p });
        paint::put(v, Mark::Line { x, to: end, y: y - 2 * DIP, paint: p });
    } else if cells::contains(flags, cells::UNDERLINE) {
        paint::put(v, Mark::Line { x, to: end, y, paint: p });
    }
    assert(paint::drawing(v@) =~= before + underline_marks(
        flags,
        x as int,
        end as int,
        y as int,
        p,
    ));
}

fn put_run(v: &mut Vec<Mark>, o: &Origin, r: &Run)
    requires
        origin_ok(*o),
        cells::run_fits(r@),
    ensures
        paint::drawing(final(v)@) == paint::drawing(old(v)@) + run_marks(*o, r@),
{
    let ghost before = paint::drawing(v@);
    let x: i64 = x_at(o, r.col);
    let y: i64 = y_at(o, r.row);
    let end: i64 = x_at(o, r.col + r.width);
    let wide: i64 = x_at(o, r.col + r.width + 2);
    proof {
        let w = o.cell.w as int;
        lemma_columns(r.col as int, r.width as int, w);
        lemma_columns(r.col as int, r.width + 2, w);
    }
    let at = paint::rect(x, y, wide, y + 2 * o.cell.h);
    paint::put(v, Mark::Text(r.text.clone(), cells::pick(r.flags), at, paint::opaque(r.fg)));
    put_underline(v, r.flags, x, end, y + o.cell.h - 1536, paint::opaque(r.underline));
    if cells::contains(r.flags, cells::STRIKEOUT) {
        paint::put(
            v,
            Mark::Line { x, to: end, y: y + o.cell.h * 11 / 20, paint: paint::opaque(r.fg) },
        );
    }
    assert(paint::drawing(v@) =~= before + run_marks(*o, r@));
}

proof fn lemma_columns(col: int, width: int, w: int)
    ensures
        (col + width) * w == col * w + width * w,
{
    assert((col + width) * w == col * w + width * w) by (nonlinear_arith);
}

fn put_decor(v: &mut Vec<Mark>, o: &Origin, d: &Decor)
    requires
        origin_ok(*o),
        d.col < cells::MAX_COL,
        d.row <= 0x4000_0000,
    ensures
        paint::drawing(final(v)@) == paint::drawing(old(v)@) + decor_marks(*o, *d),
{
    let ghost before = paint::drawing(v@);
    let x: i64 = x_at(o, d.col);
    let y: i64 = y_at(o, d.row);
    let list = decor::draw_decor(d.c, o.cell.w, o.cell.h);
    let ghost want = decor_marks(*o, *d);
    let ghost all = decor::decor_parts(d.c, o.cell.w as int, o.cell.h as int);
    proof {
        decor::lemma_parts_near(d.c, o.cell.w as int, o.cell.h as int);
    }
    let mut i: usize = 0;
    while i < list.len()
        invariant
            i <= list@.len(),
            all == decor::parts(list@),
            decor::parts_near(all),
            x == cell_x(*o, d.col as int),
            y == cell_y(*o, d.row as int),
            -0x2800_0000_0000_0000 <= x <= 0x2900_0000_0000_0000,
            -0x2800_0000_0000_0000 <= y <= 0x2900_0000_0000_0000,
            want == all.map_values(
                |p: decor::Part|
                    moved_part(p, cell_x(*o, d.col as int), cell_y(*o, d.row as int), d.fg),
            ),
            paint::drawing(v@) == before + want.take(i as int),
        decreases list@.len() - i,
    {
        let (r, alpha) = list[i];
        assert(all[i as int] == (r@, alpha as int));
        let m = Mark::Fill(
            RectF { x: r.x + x, y: r.y + y, w: r.w, h: r.h },
            Paint { color: d.fg, alpha },
        );
        paint::put(v, m);
        proof {
            assert(m@ == want[i as int]);
            assert(want.take(i + 1) =~= want.take(i as int).push(want[i as int]));
            assert(paint::drawing(v@) =~= before + want.take(i + 1));
        }
        i += 1;
    }
    assert(want.take(i as int) =~= want);
}

fn put_cursor(
    v: &mut Vec<Mark>,
    o: &Origin,
    k: &TextCursor,
    offset: i32,
    focused: bool,
    color: Rgb,
    bg: Rgb,
)
    requires
        origin_ok(*o),
        0 <= offset,
        k.line + offset <= 0x4000_0000,
        k.col < cells::MAX_COL,
    ensures
        paint::drawing(final(v)@) == paint::drawing(old(v)@) + cursor_marks(
            *o,
            *k,
            offset as int,
            focused,
            color,
            bg,
        ),
{
    let ghost before = paint::drawing(v@);
    let p = paint::opaque(color);
    if let Some((row, col)) = cells::viewport(offset, k.line, k.col) {
        let x: i64 = x_at(o, col);
        let y: i64 = y_at(o, row);
        let w: i64 = o.cell.w;
        let h: i64 = o.cell.h;
        let width: i64 = if cells::contains(k.flags, cells::WIDE_CHAR) {
            2 * w
        } else {
            w
        };
        assert(width == cells::columns(k.flags) * w) by {
            assert(2 * w == 2int * w && w == 1int * w) by (nonlinear_arith);
        }
        let at = paint::rect(x, y, x + width, y + h);
        let shape = if focused {
            k.shape
        } else {
            CursorShape::HollowBlock
        };
        if k.shape != CursorShape::Hidden {
            match shape {
                CursorShape::HollowBlock => {
                    paint::put(v, Mark::Frame(at, DIP, p));
                },
                CursorShape::Beam => {
                    paint::put(v, Mark::Fill(paint::rect(x, y, x + 2 * DIP, y + h), p));
                },
                CursorShape::Underline => {
                    paint::put(v, Mark::Fill(paint::rect(x, y + h - 2560, x + w, y + h), p));
                },
                CursorShape::Block => {
                    paint::put(v, Mark::Fill(at, p));
                    if k.c != ' ' {
                        let mut t = String::new();
                        t.push(k.c);
                        assert(t@ =~= seq![k.c]);
                        paint::put(
                            v,
                            Mark::Text(
                                t,
                                cells::pick(k.flags),
                                paint::rect(x, y, x + 3 * w, y + 2 * h),
                                paint::opaque(bg),
                            ),
                        );
                    }
                },
                CursorShape::Hidden => {},
            }
        }
    }
    assert(paint::drawing(v@) =~= before + cursor_marks(
        *o,
        *k,
        offset as int,
        focused,
        color,
        bg,
    ));
}

fn put_thumb(v: &mut Vec<Mark>, a: &RectF, s: &Screen)
    requires
        chrome::near(a@),
        scrollback::screen_ok(*s),
    ensures
        paint::drawing(final(v)@) == paint::drawing(old(v)@) + thumb_marks(a@, *s),
{
    let ghost before = paint::drawing(v@);
    if s.offset <= 0 || modes::contains(s.mode, modes::ALT_SCREEN) {
        assert(paint::drawing(v@) =~= before + thumb_marks(a@, *s));
        return;
    }
    let total: i64 = s.history as i64 + s.rows as i64;
    let rows: i64 = s.rows as i64;
    let ah: i64 = a.h;
    assert(0 <= rows * ah <= 0x8000_0000 * 0x1_0000_0000) by (nonlinear_arith)
        requires
            0 <= rows <= 0x8000_0000,
            0 <= ah <= 0x1_0000_0000,
    ;
    let view: i64 = (rows as i128 * ah as i128 / total as i128) as i64;
    proof {
        lemma_view(rows as int, ah as int, total as int);
    }
    let h: i64 = if view < 24 * DIP {
        24 * DIP
    } else {
        view
    };
    let left: i64 = total - s.offset as i64 - rows;
    let above: i64 = if left < 0 {
        0
    } else {
        left
    };
    proof {
        lemma_thumb_top(above as int, ah - h, total as int);
    }
    let n: i128 = above as i128 * (ah as i128 - h as i128);
    let d: i128 = total as i128;
    let down: i128 = if n >= 0 {
        n / d
    } else {
        proof {
            chrome::lemma_floor(n as int, d as int);
        }
        -((-n + (d - 1)) / d)
    };
    let top: i64 = a.y + down as i64;
    let r = paint::rect(a.x + a.w - 7 * DIP, top, a.x + a.w - 3 * DIP, top + h);
    paint::put(
        v,
        Mark::Rounded(
            r,
            2 * DIP,
            Paint { color: palette::rgb(0xaa, 0xaa, 0xbb), alpha: 450 },
        ),
    );
    assert(paint::drawing(v@) =~= before + thumb_marks(a@, *s));
}

proof fn lemma_view(rows: int, h: int, total: int)
    requires
        0 <= rows <= total,
        0 < total,
        0 <= h,
    ensures
        0 <= rows * h / total <= h,
{
    assert(0 <= rows * h / total <= h) by (nonlinear_arith)
        requires
            0 <= rows <= total,
            0 < total,
            0 <= h,
    ;
}

proof fn lemma_thumb_top(above: int, room: int, total: int)
    requires
        0 <= above <= total,
        0 < total <= 0x1_0000_0000,
        -24 * DIP <= room <= 0x1_0000_0000,
    ensures
        -0x10_0000_0000 <= above * room / total <= 0x10_0000_0000,
        -0x10_0000_0000_0000_0000 <= above * room <= 0x10_0000_0000_0000_0000,
{
    assert(-0x10_0000_0000_0000_0000 <= above * room <= 0x10_0000_0000_0000_0000)
        by (nonlinear_arith)
        requires
            0 <= above <= 0x1_0000_0000,
            -24576 <= room <= 0x1_0000_0000,
    ;
    let q = above * room / total;
    assert(above * room == total * q + above * room % total && 0 <= above * room % total < total)
        by (nonlinear_arith)
        requires
            q == above * room / total,
            total > 0,
    ;
    assert(-0x10_0000_0000 <= q <= 0x10_0000_0000) by (nonlinear_arith)
        requires
            above * room - total < total * q <= above * room,
            0 <= above <= total,
            0 < total,
            -24576 <= room <= 0x1_0000_0000,
    ;
}

/// What of a terminal is drawn.
pub struct Content {
    pub cells: Vec<GridCell>,
    pub selection: Option<Selected>,
    pub cursor: TextCursor,
    pub colors: Colors,
    pub screen: Screen,
}

/// Whether the content can be drawn.
pub open spec fn content_ok(c: Content) -> bool {
    &&& scrollback::screen_ok(c.screen)
    &&& cells::cells_ok(c.cells@, c.screen.offset as int)
    &&& c.colors.wf()
    &&& c.cursor.line + c.screen.offset <= 0x4000_0000
    &&& c.cursor.col < cells::MAX_COL
}

/// The origin of the grid in a pane: inside the padding, on whole pixels.
pub open spec fn grid_origin(a: Area, cell: CellSize, dpi: u32) -> Origin {
    Origin {
        x: snapped(a.x + chrome::PANE_PAD, dpi) as i64,
        y: snapped(a.y + chrome::PANE_PAD, dpi) as i64,
        cell,
    }
}

/// The marks that draw a terminal into an area.
pub open spec fn term_marks(
    c: Content,
    a: Area,
    cell: CellSize,
    dpi: u32,
    focused: bool,
    scheme: Scheme,
) -> Seq<Drawn> {
    let offset = c.screen.offset as int;
    let slots = c.colors.slots@;
    grid_marks(
        a,
        grid_origin(a, cell, dpi),
        cells::flushed(
            cells::batched(c.cells@, offset, c.selection, slots, scheme, c.cells@.len() as int),
        ),
        c.cursor,
        c.screen,
        focused,
        palette::resolved(Color::Named(NamedColor::Cursor), slots, scheme),
        scheme,
    )
}

/// Draw a terminal's grid into an area.
pub fn draw_term(
    c: &Content,
    area: &RectF,
    cell: CellSize,
    dpi: u32,
    focused: bool,
    scheme: &Scheme,
) -> (v: Vec<Mark>)
    requires
        content_ok(*c),
        chrome::near(area@),
        tabs::cell_ok(cell),
        chrome::dpi_ok(dpi),
    ensures
        paint::drawing(v@) == term_marks(*c, area@, cell, dpi, focused, *scheme),
{
    let b = cells::batch_cells(
        &c.cells,
        c.screen.offset,
        c.selection,
        &c.colors,
        scheme,
    );
    let o = Origin {
        x: snap(area.x + chrome::PANE_PAD, dpi),
        y: snap(area.y + chrome::PANE_PAD, dpi),
        cell,
    };
    let mut v: Vec<Mark> = Vec::new();
    paint::put(&mut v, Mark::Fill(*area, paint::opaque(scheme.bg)));
    let ghost base = seq![Drawn::Fill(area@, paint::solid(scheme.bg))];
    assert(paint::drawing(v@) =~= base);
    put_grounds(&mut v, &o, &b.grounds);
    put_runs(&mut v, &o, &b.runs);
    put_decors(&mut v, &o, &b.decors);
    let color = palette::resolve(Color::Named(NamedColor::Cursor), &c.colors, scheme);
    put_cursor(&mut v, &o, &c.cursor, c.screen.offset, focused, color, scheme.bg);
    put_thumb(&mut v, area, &c.screen);
    assert(paint::drawing(v@) =~= grid_marks(
        area@,
        o,
        b@,
        c.cursor,
        c.screen,
        focused,
        color,
        *scheme,
    ));
    v
}

fn put_grounds(v: &mut Vec<Mark>, o: &Origin, list: &Vec<Ground>)
    requires
        origin_ok(*o),
        cells::grounds_fit(list@),
    ensures
        paint::drawing(final(v)@) == paint::drawing(old(v)@) + ground_marks_upto(
            *o,
            list@,
            list@.len() as int,
        ),
{
    let ghost before = paint::drawing(v@);
    let mut i: usize = 0;
    assert(before =~= before + ground_marks_upto(*o, list@, 0));
    while i < list.len()
        invariant
            i <= list@.len(),
            origin_ok(*o),
            cells::grounds_fit(list@),
            paint::drawing(v@) == before + ground_marks_upto(*o, list@, i as int),
        decreases list@.len() - i,
    {
        let g = list[i];
        let r = paint::rect(
            x_at(o, g.col),
            y_at(o, g.row),
            x_at(o, g.col + g.width),
            y_at(o, g.row + 1),
        );
        paint::put(v, Mark::Fill(r, paint::opaque(g.color)));
        i += 1;
        assert(paint::drawing(v@) =~= before + ground_marks_upto(*o, list@, i as int));
    }
}

fn put_runs(v: &mut Vec<Mark>, o: &Origin, list: &Vec<Run>)
    requires
        origin_ok(*o),
        cells::runs_fit(cells::runs_of(list@)),
    ensures
        paint::drawing(final(v)@) == paint::drawing(old(v)@) + run_marks_upto(
            *o,
            cells::runs_of(list@),
            list@.len() as int,
        ),
{
    let ghost before = paint::drawing(v@);
    let ghost all = cells::runs_of(list@);
    let mut i: usize = 0;
    assert(before =~= before + run_marks_upto(*o, all, 0));
    while i < list.len()
        invariant
            i <= list@.len(),
            origin_ok(*o),
            all == cells::runs_of(list@),
            cells::runs_fit(all),
            paint::drawing(v@) == before + run_marks_upto(*o, all, i as int),
        decreases list@.len() - i,
    {
        assert(all[i as int] == list@[i as int]@);
        put_run(v, o, &list[i]);
        i += 1;
        assert(paint::drawing(v@) =~= before + run_marks_upto(*o, all, i as int));
    }
}

fn put_decors(v: &mut Vec<Mark>, o: &Origin, list: &Vec<Decor>)
    requires
        origin_ok(*o),
        cells::decors_fit(list@),
    ensures
        paint::drawing(final(v)@) == paint::drawing(old(v)@) + decor_marks_upto(
            *o,
            list@,
            list@.len() as int,
        ),
{
    let ghost before = paint::drawing(v@);
    let mut i: usize = 0;
    assert(before =~= before + decor_marks_upto(*o, list@, 0));
    while i < list.len()
        invariant
            i <= list@.len(),
            origin_ok(*o),
            cells::decors_fit(list@),
            paint::drawing(v@) == before + decor_marks_upto(*o, list@, i as int),
        decreases list@.len() - i,
    {
        let d = list[i];
        put_decor(v, o, &d);
        i += 1;
        assert(paint::drawing(v@) =~= before + decor_marks_upto(*o, list@, i as int));
    }
}

/// A run of text is drawn with its top left corner in the cell that its row and
/// column name, in its own color, over at least its own columns and its row.
/// So runs of different rows are as many cell heights apart as their rows.
pub proof fn law_run_in_its_cell(o: Origin, r: RunModel, q: RunModel)
    requires
        tabs::cell_ok(o.cell),
    ensures
        ({
            let m = run_marks(o, r);
            &&& m.len() > 0
            &&& m[0] matches Drawn::Text(text, face, a, paint) && {
                &&& text == r.text
                &&& face == cells::face_of(r.flags)
                &&& paint.color == r.fg && paint.alpha == 1000
                &&& a.x == o.x + r.col * o.cell.w
                &&& a.y == o.y + r.row * o.cell.h
                &&& a.w >= r.width * o.cell.w
                &&& a.h >= o.cell.h
            }
            &&& run_marks(o, q)[0]->Text_2.y - m[0]->Text_2.y == (q.row - r.row) * o.cell.h
            &&& run_marks(o, q)[0]->Text_2.x - m[0]->Text_2.x == (q.col - r.col) * o.cell.w
        }),
{
    let (w, h) = (o.cell.w as int, o.cell.h as int);
    assert((r.width + 2) * w >= r.width * w) by (nonlinear_arith)
        requires
            w > 0,
    ;
    assert((q.row - r.row) * h == q.row * h - r.row * h) by (nonlinear_arith);
    assert((q.col - r.col) * w == q.col * w - r.col * w) by (nonlinear_arith);
}

/// A background covers just the cells that it is for, and those are where text
/// of the same row and column is.
pub proof fn law_ground_in_its_cell(o: Origin, g: Ground)
    ensures
        ground_mark(o, g) matches Drawn::Fill(a, paint) && {
            &&& paint.color == g.color && paint.alpha == 1000
            &&& a.x == o.x + g.col * o.cell.w
            &&& a.y == o.y + g.row * o.cell.h
            &&& a.w == g.width * o.cell.w
            &&& a.h == o.cell.h
        },
{
    let (w, h) = (o.cell.w as int, o.cell.h as int);
    assert((g.col + g.width) * w == g.col * w + g.width * w) by (nonlinear_arith);
    assert((g.row + 1) * h == g.row * h + h) by (nonlinear_arith);
}

/// Shapes are drawn relative to the corner of their cell.
pub proof fn law_decor_in_its_cell(o: Origin, d: Decor, i: int)
    requires
        0 <= i < decor::decor_parts(d.c, o.cell.w as int, o.cell.h as int).len(),
    ensures
        ({
            let parts = decor::decor_parts(d.c, o.cell.w as int, o.cell.h as int);
            &&& decor_marks(o, d).len() == parts.len()
            &&& decor_marks(o, d)[i] matches Drawn::Fill(a, paint) && {
                &&& a.x == o.x + d.col * o.cell.w + parts[i].0.x
                &&& a.y == o.y + d.row * o.cell.h + parts[i].0.y
                &&& a.w == parts[i].0.w && a.h == parts[i].0.h
                &&& paint.color == d.fg
            }
        }),
{
}

/// Whether a mark is a line or a dot under or through text, between two
/// coordinates, at a height.
pub open spec fn is_rule(m: Drawn, x: int, end: int, y: int, color: Rgb) -> bool {
    match m {
        Drawn::Line { x: from, to, y: at, paint } => x <= from <= to <= end && y - 2 * DIP <= at
            <= y && paint.color == color,
        Drawn::Wave { x: from, to, y: at, paint } => from == x && to == end && at == y
            && paint.color == color,
        Drawn::Fill(a, paint) => x <= a.x && a.x + a.w <= end && a.y <= y <= a.y + a.h
            && paint.color == color,
        _ => false,
    }
}

proof fn lemma_dots(x0: int, x: int, end: int, y: int, p: Paint)
    requires
        x0 <= x,
    ensures
        forall|i: int|
            0 <= i < dots(x, end, y, p).len() ==> is_rule(
                #[trigger] dots(x, end, y, p)[i],
                x0,
                end,
                y,
                p.color,
            ),
    decreases end - x + 2560,
{
    if x < end {
        lemma_dots(x0, x + 2560, end, y, p);
        let rest = dots(x + 2560, end, y, p);
        assert forall|i: int| 0 <= i < dots(x, end, y, p).len() implies is_rule(
            #[trigger] dots(x, end, y, p)[i],
            x0,
            end,
            y,
            p.color,
        ) by {
            if i > 0 {
                assert(dots(x, end, y, p)[i] == rest[i - 1]);
            }
        }
    }
}

proof fn lemma_dashes(x0: int, x: int, end: int, y: int, p: Paint)
    requires
        x0 <= x,
    ensures
        forall|i: int|
            0 <= i < dashes(x, end, y, p).len() ==> is_rule(
                #[trigger] dashes(x, end, y, p)[i],
                x0,
                end,
                y,
                p.color,
            ),
    decreases end - x + 5 * DIP,
{
    if x < end {
        lemma_dashes(x0, x + 5 * DIP, end, y, p);
        let rest = dashes(x + 5 * DIP, end, y, p);
        assert forall|i: int| 0 <= i < dashes(x, end, y, p).len() implies is_rule(
            #[trigger] dashes(x, end, y, p)[i],
            x0,
            end,
            y,
            p.color,
        ) by {
            if i > 0 {
                assert(dashes(x, end, y, p)[i] == rest[i - 1]);
            }
        }
    }
}

/// What is drawn under a run lies under its own columns, near the bottom of its
/// row and in the color of its underline. Text without any underline has none;
/// a plain underline is one line from end to end, a double one is two, a wave is
/// one wave, and dots and dashes begin at the start.
pub proof fn law_underline_under_run(flags: u16, x: int, end: int, y: int, p: Paint, i: int)
    requires
        x < end,
    ensures
        ({
            let m = underline_marks(flags, x, end, y, p);
            &&& 0 <= i < m.len() ==> is_rule(m[i], x, end, y, p.color)
            &&& flags & 0x7808 == 0 ==> m.len() == 0
            &&& flags & 0x7808 == 0x8 ==> m == seq![Drawn::Line { x, to: end, y, paint: p }]
            &&& flags & 0x7808 == 0x800 ==> m.len() == 2 && m[0] == (Drawn::Line {
                x,
                to: end,
                y,
                paint: p,
            }) && (m[1] matches Drawn::Line { x: a, to, y: at, .. } && a == x && to == end && at < y)
            &&& flags & 0x7808 == 0x1000 ==> m == seq![Drawn::Wave { x, to: end, y, paint: p }]
            &&& flags & 0x7808 == 0x2000 ==> m.len() > 0 && (m[0] matches Drawn::Fill(a, _) && a.x
                == x)
            &&& flags & 0x7808 == 0x4000 ==> m.len() > 0 && (m[0] matches Drawn::Line {
                x: a,
                y: at,
                ..
            } && a == x && at == y)
        }),
{
    lemma_dots(x, x, end, y, p);
    lemma_dashes(x, x, end, y, p);
    assert((flags & 0x7808 == 0 ==> flags & 0x8 != 0x8 && flags & 0x800 != 0x800 && flags & 0x1000
        != 0x1000 && flags & 0x2000 != 0x2000 && flags & 0x4000 != 0x4000) && (flags & 0x7808 == 0x8
        ==> flags & 0x8 == 0x8 && flags & 0x800 != 0x800 && flags & 0x1000 != 0x1000 && flags
        & 0x2000 != 0x2000 && flags & 0x4000 != 0x4000) && (flags & 0x7808 == 0x800 ==> flags
        & 0x800 == 0x800 && flags & 0x1000 != 0x1000 && flags & 0x2000 != 0x2000 && flags & 0x4000
        != 0x4000) && (flags & 0x7808 == 0x1000 ==> flags & 0x1000 == 0x1000) && (flags & 0x7808
        == 0x2000 ==> flags & 0x2000 == 0x2000 && flags & 0x1000 != 0x1000) && (flags & 0x7808
        == 0x4000 ==> flags & 0x4000 == 0x4000 && flags & 0x2000 != 0x2000 && flags & 0x1000
        != 0x1000)) by (bit_vector);
}

/// Behind its text a run has its underline, at its foot, and last the line
/// through it, where it asks for one: between the top of the row and the
/// underline, from end to end, in the color of the text.
pub proof fn law_lines_of_run(o: Origin, r: RunModel)
    requires
        tabs::cell_ok(o.cell),
        o.cell.h >= 8 * DIP,
    ensures
        ({
            let m = run_marks(o, r);
            let top = o.y + r.row * o.cell.h;
            let x = o.x + r.col * o.cell.w;
            let end = x + r.width * o.cell.w;
            let under = underline_marks(r.flags, x, end, top + o.cell.h - 1536, paint::solid(r.underline));
            &&& forall|i: int| 0 <= i < under.len() ==> m[1 + i] == #[trigger] under[i]
            &&& r.flags & 0x200 == 0 ==> m.len() == 1 + under.len()
            &&& r.flags & 0x200 == 0x200 ==> m.len() == 2 + under.len() && (m.last() matches Drawn::Line {
                x: a,
                to,
                y,
                paint,
            } && a == x && to == end && top < y < top + o.cell.h - 3 * DIP && paint.color == r.fg)
        }),
{
    let f = r.flags;
    assert(f & 0x200 == 0 ==> f & 0x200 != 0x200) by (bit_vector);
    let h = o.cell.h as int;
    let top = o.y + r.row * o.cell.h;
    let x = o.x + r.col * o.cell.w;
    let end = x + r.width * o.cell.w;
    let under = underline_marks(f, x, end, top + h - 1536, paint::solid(r.underline));
    let m = run_marks(o, r);
    assert(m.len() >= 1 + under.len());
}

/// The cursor is in the cell it stands on, moved by as many rows as the display
/// is scrolled. A block covers the cell and shows its character over it; a beam
/// stands at its left edge, an underline at its foot, both inside it; without
/// the focus there is an outline of the cell. A hidden cursor, and one above
/// the display, are not drawn.
pub proof fn law_cursor_in_its_cell(
    o: Origin,
    k: TextCursor,
    offset: int,
    focused: bool,
    color: Rgb,
    bg: Rgb,
)
    requires
        tabs::cell_ok(o.cell),
        o.cell.w >= 2 * DIP,
        o.cell.h >= 3 * DIP,
    ensures
        ({
            let m = cursor_marks(o, k, offset, focused, color, bg);
            let x = o.x + k.col * o.cell.w;
            let y = o.y + (k.line + offset) * o.cell.h;
            let wide = if k.flags & 0x20 == 0x20 {
                2 * o.cell.w
            } else {
                o.cell.w as int
            };
            let seen = k.shape != CursorShape::Hidden && k.line + offset >= 0;
            &&& !seen ==> m.len() == 0
            &&& seen ==> m.len() > 0
            &&& seen && (!focused || k.shape == CursorShape::HollowBlock) ==> m.len() == 1 && (
            m[0] matches Drawn::Frame(a, _, p) && a == (Area { x, y, w: wide, h: o.cell.h as int })
                && p.color == color)
            &&& seen && focused && k.shape == CursorShape::Block ==> {
                &&& m[0] matches Drawn::Fill(a, p) && a == (Area {
                    x,
                    y,
                    w: wide,
                    h: o.cell.h as int,
                }) && p.color == color
                &&& k.c == ' ' ==> m.len() == 1
                &&& k.c != ' ' ==> m.len() == 2 && (m[1] matches Drawn::Text(t, f, a, p) && t
                    == seq![k.c] && a.x == x && a.y == y && p.color == bg && f == cells::face_of(
                    k.flags,
                ))
            }
            &&& seen && focused && k.shape == CursorShape::Beam ==> m.len() == 1 && (
            m[0] matches Drawn::Fill(a, p) && a.x == x && a.y == y && 0 < a.w <= o.cell.w && a.h
                == o.cell.h && p.color == color)
            &&& seen && focused && k.shape == CursorShape::Underline ==> m.len() == 1 && (
            m[0] matches Drawn::Fill(a, p) && a.x == x && a.w == o.cell.w && y < a.y && a.y + a.h
                == y + o.cell.h && p.color == color)
        }),
{
    let w = o.cell.w as int;
    assert(2 * w == 2int * w && w == 1int * w) by (nonlinear_arith);
}

/// How far the display is scrolled shows at the right edge: nothing at the live
/// screen or on an alternate one; at the top of the scrollback the mark is at
/// the top; scrolling up never moves it down, and it stays within the pane.
pub proof fn law_scroll_mark(a: Area, s: Screen, t: Screen)
    requires
        scrollback::screen_ok(s),
        scrollback::screen_ok(t),
        a.h >= 24 * DIP,
        t.rows == s.rows,
        t.history == s.history,
        0 < s.offset <= t.offset,
        s.mode & 0x1000 == 0,
        t.mode == s.mode,
    ensures
        thumb_marks(a, s).len() == 1,
        thumb_marks(a, s)[0] matches Drawn::Rounded(b, _, _) && thumb_marks(
            a,
            t,
        )[0] matches Drawn::Rounded(c, _, _) && {
            &&& a.y <= c.y <= b.y
            &&& b.y + b.h <= a.y + a.h
            &&& b.h == c.h && b.h >= 24 * DIP
            &&& s.offset == s.history ==> b.y == a.y
            &&& b.x + b.w < a.x + a.w && b.x > a.x + a.w - 8 * DIP
        },
        thumb_marks(a, Screen { offset: 0, ..s }).len() == 0,
{
    let m = s.mode;
    assert(m & 0x1000 == 0 ==> m & 0x1000 != 0x1000) by (bit_vector);
    let total = s.history + s.rows;
    let view = s.rows * a.h / total;
    lemma_view(s.rows as int, a.h, total as int);
    let h = if view < 24 * DIP {
        24 * DIP
    } else {
        view
    };
    let (p, q) = (s.history - t.offset, s.history - s.offset);
    let room = a.h - h;
    assert(0 <= p * room / total <= q * room / total && q * room / total <= room)
        by (nonlinear_arith)
        requires
            0 <= p <= q <= total,
            0 <= room,
            total > 0,
    ;
    assert(0 * room / total == 0) by (nonlinear_arith)
        requires
            total > 0,
    ;
}

/// There is no such mark on an alternate screen.
pub proof fn law_no_scroll_mark_on_alternate_screen(a: Area, s: Screen)
    requires
        s.mode & 0x1000 == 0x1000,
    ensures
        thumb_marks(a, s).len() == 0,
{
}

/// A coordinate is moved to whole pixels by half a pixel at most.
pub proof fn law_snap_is_near(v: int, dpi: u32)
    requires
        48 <= dpi,
    ensures
        -98304 - 2 * dpi < 2 * dpi * (snapped(v, dpi) - v) <= 98304,
{
    let d = dpi as int;
    let m = 2 * v * d;
    let px = if m >= 0 {
        (m + 98304) / 196608
    } else {
        -((-m + 98304) / 196608)
    };
    let n = px * 98304;
    let q = n / d;
    assert(n - d < d * q <= n) by (nonlinear_arith)
        requires
            q == n / d,
            d > 0,
    ;
    assert(2 * d * (q - v) == 2 * (d * q) - m) by (nonlinear_arith)
        requires
            m == 2 * v * d,
    ;
}

proof fn lemma_grounds_at(o: Origin, v: Seq<Ground>, n: int)
    requires
        0 <= n <= v.len(),
    ensures
        ground_marks_upto(o, v, n).len() == n,
        forall|i: int| 0 <= i < n ==> #[trigger] ground_marks_upto(o, v, n)[i] == ground_mark(o, v[i]),
    decreases n,
{
    if n > 0 {
        lemma_grounds_at(o, v, n - 1);
    }
}

proof fn lemma_runs_at(o: Origin, v: Seq<RunModel>, n: int, i: int, j: int)
    requires
        0 <= i < n <= v.len(),
        0 <= j < run_marks(o, v[i]).len(),
    ensures
        run_marks_upto(o, v, n).contains(run_marks(o, v[i])[j]),
    decreases n,
{
    let before = run_marks_upto(o, v, n - 1);
    let all = run_marks_upto(o, v, n);
    let m = run_marks(o, v[i])[j];
    if i == n - 1 {
        assert(all[before.len() + j] == m);
    } else {
        lemma_runs_at(o, v, n - 1, i, j);
        let k = choose|k: int| 0 <= k < before.len() && before[k] == m;
        assert(all[k] == m);
    }
}

proof fn lemma_decors_at(o: Origin, v: Seq<Decor>, n: int, i: int, j: int)
    requires
        0 <= i < n <= v.len(),
        0 <= j < decor_marks(o, v[i]).len(),
    ensures
        decor_marks_upto(o, v, n).contains(decor_marks(o, v[i])[j]),
    decreases n,
{
    let before = decor_marks_upto(o, v, n - 1);
    let all = decor_marks_upto(o, v, n);
    let m = decor_marks(o, v[i])[j];
    if i == n - 1 {
        assert(all[before.len() + j] == m);
    } else {
        lemma_decors_at(o, v, n - 1, i, j);
        let k = choose|k: int| 0 <= k < before.len() && before[k] == m;
        assert(all[k] == m);
    }
}

/// A grid is drawn whole and in order: first the ground of the pane, then all
/// backgrounds, behind them the text and the shapes, and behind those the
/// cursor.
pub proof fn law_grid_order(
    a: Area,
    o: Origin,
    b: BatchModel,
    k: TextCursor,
    s: Screen,
    focused: bool,
    cursor: Rgb,
    scheme: Scheme,
)
    ensures
        ({
            let m = grid_marks(a, o, b, k, s, focused, cursor, scheme);
            let g = b.grounds.len() as int;
            let c = cursor_marks(o, k, s.offset as int, focused, cursor, scheme.bg);
            let t = thumb_marks(a, s);
            let last = m.len() - c.len() - t.len();
            &&& 1 + g <= last <= m.len()
            &&& m[0] matches Drawn::Fill(all, p) && all == a && p.color == scheme.bg
            &&& forall|i: int| 0 <= i < g ==> m[1 + i] == ground_mark(o, #[trigger] b.grounds[i])
            &&& forall|i: int, j: int|
                0 <= i < b.runs.len() && 0 <= j < run_marks(o, b.runs[i]).len()
                    ==> m.subrange(1 + g, last).contains(#[trigger] run_marks(o, b.runs[i])[j])
            &&& forall|i: int, j: int|
                0 <= i < b.decors.len() && 0 <= j < decor_marks(o, b.decors[i]).len()
                    ==> m.subrange(1 + g, last).contains(#[trigger] decor_marks(o, b.decors[i])[j])
            &&& m.skip(last) == c + t
        }),
{
    let m = grid_marks(a, o, b, k, s, focused, cursor, scheme);
    let g = b.grounds.len() as int;
    let c = cursor_marks(o, k, s.offset as int, focused, cursor, scheme.bg);
    let t = thumb_marks(a, s);
    let last = m.len() - c.len() - t.len();
    lemma_grounds_at(o, b.grounds, g);
    let grounds = ground_marks_upto(o, b.grounds, g);
    let runs = run_marks_upto(o, b.runs, b.runs.len() as int);
    let decors = decor_marks_upto(o, b.decors, b.decors.len() as int);
    let mid = m.subrange(1 + g, last);
    assert(mid =~= runs + decors);
    assert(m.skip(last) =~= c + t);
    assert forall|i: int| 0 <= i < g implies m[1 + i] == ground_mark(o, #[trigger] b.grounds[i]) by {
        assert(m[1 + i] == grounds[i]);
    }
    assert forall|i: int, j: int|
        0 <= i < b.runs.len() && 0 <= j < run_marks(o, b.runs[i]).len() implies mid.contains(
        #[trigger] run_marks(o, b.runs[i])[j],
    ) by {
        lemma_runs_at(o, b.runs, b.runs.len() as int, i, j);
        let x = choose|x: int| 0 <= x < runs.len() && runs[x] == run_marks(o, b.runs[i])[j];
        assert(mid[x] == runs[x]);
    }
    assert forall|i: int, j: int|
        0 <= i < b.decors.len() && 0 <= j < decor_marks(o, b.decors[i]).len() implies mid.contains(
        #[trigger] decor_marks(o, b.decors[i])[j],
    ) by {
        lemma_decors_at(o, b.decors, b.decors.len() as int, i, j);
        let x = choose|x: int| 0 <= x < decors.len() && decors[x] == decor_marks(o, b.decors[i])[j];
        assert(mid[runs.len() + x] == decors[x]);
    }
}

/// Whether a mark is a text from a corner on, with a character at a place.
pub open spec fn shows_char(m: Drawn, n: int, c: char, x: int, y: int) -> bool {
    m matches Drawn::Text(t, _, at, _) && 0 <= n < t.len() && t[n] == c && at.x == x && at.y == y
}

/// Each character of a terminal is drawn where it belongs: in a pane at `a`, the
/// character of a narrow cell stands in a text whose top is its row's, counted
/// in cell heights from the origin of the grid and moved by the scrolling, and
/// as many columns into that text as it stands from its left edge. The origin
/// is the corner inside the padding, on whole pixels.
pub proof fn law_character_in_its_place(
    c: Content,
    a: Area,
    cell: CellSize,
    dpi: u32,
    focused: bool,
    scheme: Scheme,
    k: int,
)
    requires
        content_ok(c),
        chrome::near(a),
        tabs::cell_ok(cell),
        chrome::dpi_ok(dpi),
        cells::all_narrow(c.cells@),
        0 <= k < c.cells@.len(),
        c.cells@[k].line + c.screen.offset >= 0,
        c.cells@[k].flags & 0x440 == 0,
        c.cells@[k].c != ' ',
        !decor::decorates(c.cells@[k].c),
    ensures
        ({
            let it = c.cells@[k];
            let m = term_marks(c, a, cell, dpi, focused, scheme);
            let x0 = snapped(a.x + chrome::PANE_PAD, dpi);
            let y0 = snapped(a.y + chrome::PANE_PAD, dpi);
            exists|i: int, n: int|
                0 <= i < m.len() && #[trigger] shows_char(
                    m[i],
                    n,
                    it.c,
                    x0 + it.col * cell.w - n * cell.w,
                    y0 + (it.line + c.screen.offset) * cell.h,
                )
        }),
{
    let offset = c.screen.offset as int;
    let slots = c.colors.slots@;
    let it = c.cells@[k];
    cells::law_text_is_placed(c.cells@, offset, c.selection, slots, scheme, k);
    let b = cells::flushed(
        cells::batched(c.cells@, offset, c.selection, slots, scheme, c.cells@.len() as int),
    );
    let o = grid_origin(a, cell, dpi);
    let cursor = palette::resolved(Color::Named(NamedColor::Cursor), slots, scheme);
    law_grid_order(a, o, b, c.cursor, c.screen, focused, cursor, scheme);
    let look = cells::look_of(it, cells::is_selected(c.selection, it), slots, scheme);
    let i = choose|i: int|
        0 <= i < b.runs.len() && {
            let r = #[trigger] b.runs[i];
            &&& r.row == it.line + offset
            &&& r.col <= it.col < r.col + r.width
            &&& it.flags & 0x20 == 0x20 ==> it.col + 1 < r.col + r.width
            &&& r.fg == look.fg
            &&& r.underline == look.underline
            &&& r.flags == it.flags & 0x7a0e
            &&& r.text.contains(it.c)
            &&& cells::all_narrow(c.cells@) ==> r.text[it.col - r.col] == it.c
        };
    let r = b.runs[i];
    let m = term_marks(c, a, cell, dpi, focused, scheme);
    let text = run_marks(o, r)[0];
    let g = b.grounds.len() as int;
    let last = m.len() - cursor_marks(o, c.cursor, offset, focused, cursor, scheme.bg).len()
        - thumb_marks(a, c.screen).len();
    let mid = m.subrange(1 + g, last);
    assert(mid.contains(text));
    let x = choose|x: int| 0 <= x < mid.len() && mid[x] == text;
    assert(m[1 + g + x] == text);
    lemma_snap_range(a, dpi);
    let n = it.col - r.col;
    let w = cell.w as int;
    assert((r.col + n) * w == r.col * w + n * w) by (nonlinear_arith);
    let x0 = snapped(a.x + chrome::PANE_PAD, dpi);
    let y0 = snapped(a.y + chrome::PANE_PAD, dpi);
    assert(n < r.text.len()) by {
        cells::lemma_narrow_text(c.cells@, offset, c.selection, slots, scheme, i);
    }
    assert(shows_char(
        m[1 + g + x],
        n,
        it.c,
        x0 + it.col * cell.w - n * cell.w,
        y0 + (it.line + c.screen.offset) * cell.h,
    ));
}

proof fn lemma_snap_range(a: Area, dpi: u32)
    requires
        chrome::near(a),
        chrome::dpi_ok(dpi),
    ensures
        i64::MIN <= snapped(a.x + chrome::PANE_PAD, dpi) <= i64::MAX,
        i64::MIN <= snapped(a.y + chrome::PANE_PAD, dpi) <= i64::MAX,
{
    let d = if dpi < 48 {
        48int
    } else {
        dpi as int
    };
    lemma_snap_one(a.x + chrome::PANE_PAD, d);
    lemma_snap_one(a.y + chrome::PANE_PAD, d);
}

proof fn lemma_snap_one(v: int, d: int)
    requires
        48 <= d <= 0xffff,
        -0x2000_0000_0000_1000 <= v <= 0x2000_0000_0000_1000,
    ensures
        ({
            let m = 2 * v * d;
            let px = if m >= 0 {
                (m + 98304) / 196608
            } else {
                -((-m + 98304) / 196608)
            };
            i64::MIN <= px * 98304 / d <= i64::MAX
        }),
{
    let m = 2 * v * d;
    let px = if m >= 0 {
        (m + 98304) / 196608
    } else {
        -((-m + 98304) / 196608)
    };
    lemma_snap_bound(v, m, px, px * 98304, d);
}

/// The dots of an underline run along it, one wide and one and a half apart, and
/// do not go past its end.
pub proof fn law_dots(x: int, end: int, y: int, p: Paint, i: int)
    requires
        0 <= i < dots(x, end, y, p).len(),
    ensures
        dots(x, end, y, p)[i] matches Drawn::Fill(a, q) && q == p && a.x == x + 2560 * i && a.x + a.w
            <= end && 0 < a.w <= 1024 && a.y == y - 512 && a.h == 1024,
    decreases i,
{
    if i > 0 {
        law_dots(x + 2560, end, y, p, i - 1);
        assert(dots(x, end, y, p)[i] == dots(x + 2560, end, y, p)[i - 1]);
    }
}

/// The dashes of an underline run along it, three wide and two apart, and do not
/// go past its end.
pub proof fn law_dashes(x: int, end: int, y: int, p: Paint, i: int)
    requires
        0 <= i < dashes(x, end, y, p).len(),
    ensures
        dashes(x, end, y, p)[i] matches Drawn::Line { x: a, to, y: at, paint } && paint == p && at == y
            && a == x + 5120 * i && a < to <= end && to <= a + 3072,
    decreases i,
{
    if i > 0 {
        law_dashes(x + 5120, end, y, p, i - 1);
        assert(dashes(x, end, y, p)[i] == dashes(x + 5120, end, y, p)[i - 1]);
    }
}

} // verus!
