//! The marks that draw the overlays: the search bar, the hints, the command
//! palette, the list of shortcuts, and announcements.
use vstd::prelude::*;
use crate::bar_paint;
use crate::cells;
use crate::chrome;
use crate::command_palette;
use crate::command_palette::Item;
use crate::hints;
use crate::hints::HintMatch;
use crate::overlays;
use crate::overlays::{PaletteModel, SearchModel};
use crate::paint;
use crate::paint::{Drawn, Face, Mark};
use crate::pane_tree;
use crate::pane_tree::{Area, RectF, DIP};
use crate::tabs;
use crate::tabs::CellSize;
use crate::text;
use crate::tones;
use crate::tones::Tone;

verus! {

/// Where the search bar is in a pane.
pub open spec fn search_area(c: Area) -> Area {
    let w = if 280 * DIP < c.w - 16 * DIP {
        280 * DIP
    } else {
        c.w - 16 * DIP
    };
    paint::edges(
        c.x + c.w - w - 8 * DIP,
        c.y + 6 * DIP,
        c.x + c.w - 8 * DIP,
        c.y + 34 * DIP,
    )
}

/// The search bar: red where there is no match.
pub open spec fn search_marks(c: Area, s: SearchModel) -> Seq<Drawn> {
    let bar = search_area(c);
    let miss = s.query.len() > 0 && s.found is None;
    let border = if miss {
        Tone::Miss
    } else {
        Tone::Accent
    };
    let ink = if miss {
        Tone::Miss
    } else {
        Tone::TabTextActive
    };
    seq![
        Drawn::Rounded(bar, 5 * DIP as int, tones::wash(Tone::ToolbarBg, 970)),
        Drawn::Frame(bar, DIP as int, tones::wash(border, 900)),
        Drawn::Text(
            "\u{e721}"@,
            Face::Icons,
            paint::edges(bar.x + 4 * DIP, bar.y, bar.x + 24 * DIP, bar.y + bar.h),
            tones::full(Tone::TabText),
        ),
        Drawn::Text(
            s.query + "\u{2595}"@,
            Face::Ui,
            bar_paint::inset(bar, 28 * DIP as int, 0, 6 * DIP as int, 0),
            tones::full(ink),
        ),
    ]
}

/// The chip of a hint at its cell.
pub open spec fn chip_area(c: Area, cell: CellSize, h: HintMatch) -> Area {
    let x = c.x + chrome::PANE_PAD + h.col * cell.w;
    let y = c.y + chrome::PANE_PAD + h.row * cell.h;
    paint::edges(
        x,
        y - 2 * DIP,
        x + 8 * DIP + hints::byte_len(h.label@) * (8 * DIP),
        y + 16 * DIP,
    )
}

pub open spec fn hint_marks(c: Area, cell: CellSize, h: HintMatch) -> Seq<Drawn> {
    let chip = chip_area(c, cell, h);
    seq![
        Drawn::Rounded(chip, 3 * DIP as int, tones::full(Tone::Accent)),
        Drawn::Text(
            h.label@,
            Face::Ui,
            bar_paint::inset(chip, 4 * DIP as int, 0, 0, 0),
            tones::full(Tone::HintText),
        ),
    ]
}

/// The hints among the first `n` whose label begins with what was typed.
pub open spec fn hints_marks(
    c: Area,
    cell: CellSize,
    m: Seq<HintMatch>,
    typed: Seq<char>,
    n: int,
) -> Seq<Drawn>
    decreases n,
{
    if n <= 0 || n > m.len() {
        Seq::empty()
    } else if overlays::leads_on(m[n - 1], typed) {
        hints_marks(c, cell, m, typed, n - 1) + hint_marks(c, cell, m[n - 1])
    } else {
        hints_marks(c, cell, m, typed, n - 1)
    }
}

/// A hint whose chip can be drawn.
pub open spec fn hint_fits(h: HintMatch) -> bool {
    h.col < cells::MAX_COL && h.row < cells::MAX_COL && hints::byte_len(h.label@) < 0x1_0000
}

pub open spec fn hints_fit(v: Seq<HintMatch>) -> bool {
    forall|i: int| 0 <= i < v.len() ==> hint_fits(#[trigger] v[i])
}

/// The box of the palette: its left edge, its width.
pub open spec fn palette_box(width: int) -> (int, int) {
    let pw = if 480 * DIP < width - 40 * DIP {
        480 * DIP
    } else {
        width - 40 * DIP
    };
    ((width - pw) / 2, pw)
}

/// A row of the palette.
pub open spec fn palette_row(x0: int, y: int, pw: int, item: Item, selected: bool) -> Seq<Drawn> {
    let rr = paint::edges(x0 + 4 * DIP, y, x0 + pw - 4 * DIP, y + 24 * DIP);
    (if selected {
        seq![Drawn::Rounded(rr, 4 * DIP as int, tones::wash(Tone::Accent, 300))]
    } else {
        Seq::empty()
    }) + seq![
        Drawn::Text(
            item.label@,
            Face::Ui,
            bar_paint::inset(rr, 8 * DIP as int, 0, 120 * DIP as int, 0),
            tones::full(Tone::TabTextActive),
        ),
        Drawn::Text(
            item.hint@,
            Face::Ui,
            paint::edges(
                rr.x + rr.w - 150 * DIP,
                rr.y,
                rr.x + rr.w - 8 * DIP,
                rr.y + rr.h,
            ),
            tones::wash(Tone::TabText, 700),
        ),
    ]
}

/// The first `n` rows of the palette.
pub open spec fn palette_rows(p: PaletteModel, f: Seq<usize>, width: int, n: int) -> Seq<Drawn>
    decreases n,
{
    if n <= 0 || n > f.len() {
        Seq::empty()
    } else {
        let (x0, pw) = palette_box(width);
        palette_rows(p, f, width, n - 1) + palette_row(
            x0,
            chrome::TABBAR_H + 44 * DIP + (n - 1) * (26 * DIP),
            pw,
            p.items[f[n - 1] as int],
            n - 1 == p.selected,
        )
    }
}

/// The palette: its box, the query, and the best ten items.
pub open spec fn palette_marks(p: PaletteModel, width: int) -> Seq<Drawn> {
    let f = command_palette::filtered(p.items, p.query);
    let shown = if f.len() < 10 {
        f.len() as int
    } else {
        10
    };
    let (x0, pw) = palette_box(width);
    let y0 = chrome::TABBAR_H + 10 * DIP;
    let bx = paint::edges(x0, y0, x0 + pw, y0 + 40 * DIP + shown * (26 * DIP));
    seq![
        Drawn::Rounded(bx, 6 * DIP as int, tones::wash(Tone::ChromeBg, 980)),
        Drawn::Frame(bx, DIP as int, tones::wash(Tone::Accent, 800)),
        Drawn::Text(
            "\u{276f} "@ + p.query + "\u{2595}"@,
            Face::Ui,
            paint::edges(
                x0 + 12 * DIP,
                y0 + 4 * DIP,
                x0 + pw - 12 * DIP,
                y0 + 30 * DIP,
            ),
            tones::full(Tone::TabTextActive),
        ),
    ] + palette_rows(p, f, width, shown)
}

/// An announcement.
pub open spec fn toast_marks(t: Seq<char>, width: int) -> Seq<Drawn> {
    let need = t.len() * (8 * DIP) + 40 * DIP;
    let tw = if need < width - 20 * DIP {
        need
    } else {
        width - 20 * DIP
    };
    let bar = paint::edges(
        (width - tw) / 2,
        chrome::TABBAR_H + 14 * DIP,
        (width + tw) / 2,
        chrome::TABBAR_H + 48 * DIP,
    );
    seq![
        Drawn::Rounded(bar, 8 * DIP as int, tones::wash(Tone::ChromeBg, 970)),
        Drawn::Frame(bar, DIP as int, tones::wash(Tone::Accent, 900)),
        Drawn::Text(
            t,
            Face::Ui,
            bar_paint::inset(bar, 16 * DIP as int, 0, 8 * DIP as int, 0),
            tones::full(Tone::TabTextActive),
        ),
    ]
}

pub fn put_search(v: &mut Vec<Mark>, c: &RectF, s: &overlays::SearchUi)
    requires
        chrome::near(c@),
    ensures
        paint::drawing(final(v)@) == paint::drawing(old(v)@) + search_marks(c@, s@),
{
    let ghost before = paint::drawing(v@);
    let w: i64 = if 280 * DIP < c.w - 16 * DIP {
        280 * DIP
    } else {
        c.w - 16 * DIP
    };
    let bar = paint::rect(
        c.x + c.w - w - 8 * DIP,
        c.y + 6 * DIP,
        c.x + c.w - 8 * DIP,
        c.y + 34 * DIP,
    );
    let miss = !s.query.as_str().is_empty() && s.found.is_none();
    let (border, ink) = if miss {
        (Tone::Miss, Tone::Miss)
    } else {
        (Tone::Accent, Tone::TabTextActive)
    };
    paint::put(v, Mark::Rounded(bar, 5 * DIP, tones::tint(Tone::ToolbarBg, 970)));
    paint::put(v, Mark::Frame(bar, DIP, tones::tint(border, 900)));
    let glass = paint::rect(bar.x + 4 * DIP, bar.y, bar.x + 24 * DIP, bar.y + bar.h);
    paint::put(
        v,
        Mark::Text(text::owned("\u{e721}"), Face::Icons, glass, tones::tint(Tone::TabText, 1000)),
    );
    let mut t = s.query.clone();
    text::push_text(&mut t, "\u{2595}");
    let at = bar_paint::inside(&bar, 28 * DIP, 0, 6 * DIP, 0);
    paint::put(v, Mark::Text(t, Face::Ui, at, tones::tint(ink, 1000)));
    assert(paint::drawing(v@) =~= before + search_marks(c@, s@));
}

fn put_hint(v: &mut Vec<Mark>, c: &RectF, cell: CellSize, h: &HintMatch)
    requires
        chrome::near(c@),
        tabs::cell_ok(cell),
        hint_fits(*h),
    ensures
        paint::drawing(final(v)@) == paint::drawing(old(v)@) + hint_marks(c@, cell, *h),
{
    let ghost before = paint::drawing(v@);
    let (col, row): (i64, i64) = (h.col as i64, h.row as i64);
    let (cw, ch): (i64, i64) = (cell.w, cell.h);
    assert(0 <= col * cw <= 0x4000_0000 * 0x100_0000 && 0 <= row * ch <= 0x4000_0000 * 0x100_0000)
        by (nonlinear_arith)
        requires
            0 <= col <= 0x4000_0000,
            0 <= row <= 0x4000_0000,
            0 <= cw <= 0x100_0000,
            0 <= ch <= 0x100_0000,
    ;
    let x: i64 = c.x + chrome::PANE_PAD + col * cw;
    let y: i64 = c.y + chrome::PANE_PAD + row * ch;
    let n: usize = h.label.as_str().as_bytes().len();
    let chip = paint::rect(x, y - 2 * DIP, x + 8 * DIP + n as i64 * (8 * DIP), y + 16 * DIP);
    assert(chip@ == chip_area(c@, cell, *h));
    paint::put(v, Mark::Rounded(chip, 3 * DIP, tones::tint(Tone::Accent, 1000)));
    let at = bar_paint::inside(&chip, 4 * DIP, 0, 0, 0);
    paint::put(v, Mark::Text(h.label.clone(), Face::Ui, at, tones::tint(Tone::HintText, 1000)));
    assert(paint::drawing(v@) =~= before + hint_marks(c@, cell, *h));
}

pub fn put_hints(v: &mut Vec<Mark>, c: &RectF, cell: CellSize, h: &overlays::HintsUi)
    requires
        chrome::near(c@),
        tabs::cell_ok(cell),
        hints_fit(h.matches@),
    ensures
        paint::drawing(final(v)@) == paint::drawing(old(v)@) + hints_marks(
            c@,
            cell,
            h.matches@,
            h.typed@,
            h.matches@.len() as int,
        ),
{
    let ghost before = paint::drawing(v@);
    let typed = text::chars_of(h.typed.as_str());
    let mut i: usize = 0;
    assert(before =~= before + hints_marks(c@, cell, h.matches@, h.typed@, 0));
    while i < h.matches.len()
        invariant
            i <= h.matches@.len(),
            typed@ == h.typed@,
            chrome::near(c@),
            tabs::cell_ok(cell),
            hints_fit(h.matches@),
            paint::drawing(v@) == before + hints_marks(
                c@,
                cell,
                h.matches@,
                h.typed@,
                i as int,
            ),
        decreases h.matches@.len() - i,
    {
        let label = text::chars_of(h.matches[i].label.as_str());
        if text::stands(label.as_slice(), typed.as_slice(), 0) {
            put_hint(v, c, cell, &h.matches[i]);
        }
        i += 1;
        assert(paint::drawing(v@) =~= before + hints_marks(
            c@,
            cell,
            h.matches@,
            h.typed@,
            i as int,
        ));
    }
}

fn put_palette_row(v: &mut Vec<Mark>, x0: i64, y: i64, pw: i64, item: &Item, selected: bool)
    requires
        -0x10_0000_0000 <= x0 <= 0x10_0000_0000,
        -0x10_0000_0000 <= y <= 0x10_0000_0000,
        -0x10_0000_0000 <= pw <= 0x10_0000_0000,
    ensures
        paint::drawing(final(v)@) == paint::drawing(old(v)@) + palette_row(
            x0 as int,
            y as int,
            pw as int,
            *item,
            selected,
        ),
{
    let ghost before = paint::drawing(v@);
    let rr = paint::rect(x0 + 4 * DIP, y, x0 + pw - 4 * DIP, y + 24 * DIP);
    if selected {
        paint::put(v, Mark::Rounded(rr, 4 * DIP, tones::tint(Tone::Accent, 300)));
    }
    let at = bar_paint::inside(&rr, 8 * DIP, 0, 120 * DIP, 0);
    paint::put(
        v,
        Mark::Text(item.label.clone(), Face::Ui, at, tones::tint(Tone::TabTextActive, 1000)),
    );
    let at = paint::rect(rr.x + rr.w - 150 * DIP, rr.y, rr.x + rr.w - 8 * DIP, rr.y + rr.h);
    paint::put(
        v,
        Mark::Text(text::owned(item.hint), Face::Ui, at, tones::tint(Tone::TabText, 700)),
    );
    assert(paint::drawing(v@) =~= before + palette_row(
        x0 as int,
        y as int,
        pw as int,
        *item,
        selected,
    ));
}

pub fn put_palette(v: &mut Vec<Mark>, p: &overlays::PaletteUi, width: i64)
    requires
        p.wf(),
        0 <= width <= pane_tree::MAX_EXTENT,
    ensures
        paint::drawing(final(v)@) == paint::drawing(old(v)@) + palette_marks(p@, width as int),
{
    let ghost before = paint::drawing(v@);
    let count: usize = p.items.len();
    proof {
        assert(count == p.items@.len());
        command_palette::lemma_filtered(p.items@, p.query@, p.filtered@);
    }
    let pw: i64 = if 480 * DIP < width - 40 * DIP {
        480 * DIP
    } else {
        width - 40 * DIP
    };
    let x0: i64 = (width - pw) / 2;
    let y0: i64 = chrome::TABBAR_H + 10 * DIP;
    let shown: usize = if p.filtered.len() < 10 {
        p.filtered.len()
    } else {
        10
    };
    let bx = paint::rect(x0, y0, x0 + pw, y0 + 40 * DIP + shown as i64 * (26 * DIP));
    paint::put(v, Mark::Rounded(bx, 6 * DIP, tones::tint(Tone::ChromeBg, 980)));
    paint::put(v, Mark::Frame(bx, DIP, tones::tint(Tone::Accent, 800)));
    let mut t = text::owned("\u{276f} ");
    text::push_text(&mut t, p.query.as_str());
    text::push_text(&mut t, "\u{2595}");
    let at = paint::rect(x0 + 12 * DIP, y0 + 4 * DIP, x0 + pw - 12 * DIP, y0 + 30 * DIP);
    paint::put(v, Mark::Text(t, Face::Ui, at, tones::tint(Tone::TabTextActive, 1000)));
    let ghost head = paint::drawing(v@);
    let mut i: usize = 0;
    assert(head =~= head + palette_rows(p@, p.filtered@, width as int, 0));
    while i < shown
        invariant
            i <= shown <= 10,
            shown <= p.filtered@.len(),
            p.wf(),
            0 <= width <= pane_tree::MAX_EXTENT,
            (x0 as int, pw as int) == palette_box(width as int),
            -0x10_0000_0000 <= pw <= 0x10_0000_0000,
            -0x10_0000_0000 <= x0 <= 0x10_0000_0000,
            paint::drawing(v@) == head + palette_rows(p@, p.filtered@, width as int, i as int),
        decreases shown - i,
    {
        let k: usize = p.filtered[i];
        let y: i64 = chrome::TABBAR_H + 44 * DIP + i as i64 * (26 * DIP);
        put_palette_row(v, x0, y, pw, &p.items[k], i == p.selected);
        i += 1;
        assert(paint::drawing(v@) =~= head + palette_rows(
            p@,
            p.filtered@,
            width as int,
            i as int,
        ));
    }
    assert(paint::drawing(v@) =~= before + palette_marks(p@, width as int));
}

pub fn put_toast(v: &mut Vec<Mark>, t: &String, width: i64)
    requires
        0 <= width <= pane_tree::MAX_EXTENT,
    ensures
        paint::drawing(final(v)@) == paint::drawing(old(v)@) + toast_marks(t@, width as int),
{
    let ghost before = paint::drawing(v@);
    let n: usize = text::chars_of(t.as_str()).len();
    let most: i64 = width - 20 * DIP;
    let tw: i64 = if n < 0x100_0000 && n as i64 * (8 * DIP) + 40 * DIP < most {
        n as i64 * (8 * DIP) + 40 * DIP
    } else {
        most
    };
    let bar = paint::rect(
        paint::half(width - tw),
        chrome::TABBAR_H + 14 * DIP,
        paint::half(width + tw),
        chrome::TABBAR_H + 48 * DIP,
    );
    paint::put(v, Mark::Rounded(bar, 8 * DIP, tones::tint(Tone::ChromeBg, 970)));
    paint::put(v, Mark::Frame(bar, DIP, tones::tint(Tone::Accent, 900)));
    let at = bar_paint::inside(&bar, 16 * DIP, 0, 8 * DIP, 0);
    paint::put(
        v,
        Mark::Text(t.clone(), Face::Ui, at, tones::tint(Tone::TabTextActive, 1000)),
    );
    assert(paint::drawing(v@) =~= before + toast_marks(t@, width as int));
}

/// The search bar stands in the upper right of its pane, 8 units from the edge, and
/// shows the query; it is red just where a query has no match.
pub proof fn law_search_bar(c: Area, s: SearchModel)
    requires
        c.w >= 40 * 1024,
    ensures
        ({
            let v = search_marks(c, s);
            let miss = s.query.len() > 0 && s.found is None;
            &&& v.len() == 4
            &&& v[0] matches Drawn::Rounded(a, _, _) && a.x + a.w == c.x + c.w - 8 * 1024 && a.x >= c.x
                && a.w <= 280 * 1024 && a.y == c.y + 6 * 1024 && a.h == 28 * 1024
            &&& v[1] matches Drawn::Frame(_, _, p) && (p.color == tones::color_of(Tone::Miss)) == miss
                && (p.color == tones::color_of(Tone::Accent)) == !miss
            &&& v[3] matches Drawn::Text(t, _, a, p) && t.take(s.query.len() as int) == s.query && a.x
                >= c.x && a.x + a.w < c.x + c.w && (p.color == tones::color_of(Tone::Miss)) == miss
        }),
{
    assert((s.query + "\u{2595}"@).take(s.query.len() as int) =~= s.query);
}

/// The chip of a hint hangs at the cell where its text starts, and is wide enough
/// for its label.
pub proof fn law_hint_chip(c: Area, cell: CellSize, h: HintMatch)
    ensures
        ({
            let v = hint_marks(c, cell, h);
            &&& v.len() == 2
            &&& v[0] matches Drawn::Rounded(a, _, _) && a.x == c.x + 2 * 1024 + h.col * cell.w && a.y
                == c.y + 2 * 1024 + h.row * cell.h - 2 * 1024 && a.w == 8 * 1024 * (1 + hints::byte_len(
                h.label@,
            )) && a.h == 18 * 1024
            &&& v[1] matches Drawn::Text(t, _, a, _) && t == h.label@ && a.x == c.x + 6 * 1024 + h.col
                * cell.w
        }),
{
    let n = hints::byte_len(h.label@) as int;
    let d = DIP as int;
    assert(n * (8 * d) == 8 * 1024 * n) by (nonlinear_arith)
        requires
            d == 1024,
    ;
}

/// A hint is shown while what was typed leads on to it, and only then.
pub proof fn law_hints_left_are_shown(
    c: Area,
    cell: CellSize,
    m: Seq<HintMatch>,
    typed: Seq<char>,
    n: int,
    i: int,
)
    requires
        0 <= i < n <= m.len(),
    ensures
        text::stands_at(m[i].label@, typed, 0) ==> exists|k: int|
            0 <= k < hints_marks(c, cell, m, typed, n).len() && #[trigger] hints_marks(
                c,
                cell,
                m,
                typed,
                n,
            )[k] == hint_marks(c, cell, m[i])[1],
        (forall|j: int| 0 <= j < n ==> !text::stands_at((#[trigger] m[j]).label@, typed, 0))
            ==> hints_marks(c, cell, m, typed, n).len() == 0,
    decreases n,
{
    let v = hints_marks(c, cell, m, typed, n);
    let before = hints_marks(c, cell, m, typed, n - 1);
    if forall|j: int| 0 <= j < n ==> !text::stands_at((#[trigger] m[j]).label@, typed, 0) {
        assert(!overlays::leads_on(m[n - 1], typed));
        if n > 1 {
            law_hints_left_are_shown(c, cell, m, typed, n - 1, 0);
        }
    }
    if text::stands_at(m[i].label@, typed, 0) {
        if i == n - 1 {
            assert(overlays::leads_on(m[i], typed));
            let k = before.len() as int + 1;
            assert(v[k] == hint_marks(c, cell, m[i])[1]);
        } else {
            law_hints_left_are_shown(c, cell, m, typed, n - 1, i);
            let k = choose|k: int|
                0 <= k < before.len() && #[trigger] before[k] == hint_marks(c, cell, m[i])[1];
            assert(v[k] == before[k]);
        }
    }
}

/// The palette stands in the middle of the window, below the bar, and leaves 20
/// units at each side.
pub proof fn law_palette_box(width: int)
    ensures
        ({
            let (x, w) = palette_box(width);
            &&& width - 1 <= 2 * x + w <= width
            &&& w <= 480 * 1024 && w <= width - 40 * 1024
            &&& w == 480 * 1024 || w == width - 40 * 1024
        }),
{
}

/// Each row of the palette shows the label and the keys of its item, 26 units
/// below the one before; only the selected one has a ground.
pub proof fn law_palette_row(p: PaletteModel, f: Seq<usize>, width: int, n: int)
    requires
        0 < n <= f.len(),
    ensures
        ({
            let v = palette_rows(p, f, width, n);
            let k = v.len() as int;
            let item = p.items[f[n - 1] as int];
            let (x, w) = palette_box(width);
            let y = (38 + 44 + 26 * (n - 1)) * 1024;
            &&& palette_rows(p, f, width, n - 1).len() + (if n - 1 == p.selected {
                3int
            } else {
                2
            }) == k
            &&& v[k - 2] matches Drawn::Text(t, _, a, _) && t == item.label@ && a.y == y && a.h == 24
                * 1024 && a.x == x + 12 * 1024
            &&& v[k - 1] matches Drawn::Text(t, _, a, _) && t == item.hint@ && a.y == y && a.x + a.w
                == x + w - 12 * 1024
            &&& n - 1 == p.selected ==> (v[k - 3] matches Drawn::Rounded(a, _, q) && a.y == y && a.h
                == 24 * 1024 && q == tones::wash(Tone::Accent, 300))
        }),
{
    let k = n - 1;
    let d = DIP as int;
    assert(k * (26 * d) == 26 * 1024 * k) by (nonlinear_arith)
        requires
            d == 1024,
    ;
}

/// The palette shows the query and ten items at most, in a box that holds them.
pub proof fn law_palette(p: PaletteModel, width: int)
    ensures
        ({
            let v = palette_marks(p, width);
            let f = command_palette::filtered(p.items, p.query);
            let shown = if f.len() < 10 {
                f.len() as int
            } else {
                10
            };
            let (x, w) = palette_box(width);
            &&& v.skip(3) == palette_rows(p, f, width, shown)
            &&& v[0] matches Drawn::Rounded(a, _, _) && a.x == x && a.w == w && a.y == 48 * 1024 && a.h
                == (40 + 26 * shown) * 1024
            &&& v[2] matches Drawn::Text(t, _, a, _) && t.len() == p.query.len() + 3 && t.subrange(
                2,
                2int + p.query.len(),
            ) == p.query
        }),
{
    reveal_strlit("\u{276f} ");
    reveal_strlit("\u{2595}");
    let v = palette_marks(p, width);
    let f = command_palette::filtered(p.items, p.query);
    let shown = if f.len() < 10 {
        f.len() as int
    } else {
        10
    };
    let d = DIP as int;
    assert(shown * (26 * d) == 26 * 1024 * shown) by (nonlinear_arith)
        requires
            d == 1024,
    ;
    assert(v.skip(3) =~= palette_rows(p, f, width, shown));
    let t = "\u{276f} "@ + p.query + "\u{2595}"@;
    assert(t.subrange(2, 2int + p.query.len()) =~= p.query);
}

/// An announcement stands in the middle below the bar, as wide as its text needs
/// where the window has the room.
pub proof fn law_toast(t: Seq<char>, width: int)
    requires
        width >= 20 * 1024,
    ensures
        ({
            let v = toast_marks(t, width);
            &&& v.len() == 3
            &&& v[0] matches Drawn::Rounded(a, _, _) && width - 1 <= 2 * a.x + a.w <= width + 1 && a.w
                <= width - 20 * 1024 + 1 && a.y == 52 * 1024 && a.h == 34 * 1024 && (8 * t.len() + 60
                <= width / 1024 ==> (8 * t.len() + 40) * 1024 <= a.w + 1)
            &&& v[2] matches Drawn::Text(s, _, _, _) && s == t
        }),
{
}

} // verus!
