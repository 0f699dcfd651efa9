//! Moving through a terminal's scrollback: jumps between prompts, matches of
//! a search, selections, and the images anchored in it.
use vstd::prelude::*;
use crate::chrome;
use crate::chrome::CellSpot;
use crate::images::InlineImage;
use crate::modes;
use crate::pane_tree;
use crate::pane_tree::{Area, RectF, DIP};
use crate::tabs;
use crate::tabs::CellSize;
use crate::term_pane;
use crate::text;

verus! {

/// What an emulator shows at a moment.
#[derive(Clone, Copy, PartialEq, Eq, Debug, Structural)]
pub struct Screen {
    /// The bits of its mode.
    pub mode: u32,
    /// Lines that the display is scrolled up.
    pub offset: i32,
    pub cols: i32,
    pub rows: i32,
    /// Lines of scrollback.
    pub history: i32,
    /// Row of the cursor, counted from the top of the unscrolled screen.
    pub cursor_row: i32,
    /// Text is selected.
    pub selected: bool,
}

pub open spec fn screen_ok(s: Screen) -> bool {
    &&& 0 <= s.offset <= s.history
    &&& 1 <= s.cols
    &&& 1 <= s.rows
    &&& 0 <= s.cursor_row < s.rows
}

/// A cell of the scrollback: its line, negative above the screen, and column.
#[derive(Clone, Copy, PartialEq, Eq, Debug, Structural)]
pub struct Spot {
    pub line: i32,
    pub col: i32,
}

/// The cell of the scrollback that a cell of the display shows; the nearest
/// one for a cell beyond its edge.
pub open spec fn spot_of(c: CellSpot, s: Screen) -> (int, int) {
    (
        (if c.row < s.rows {
            c.row as int
        } else {
            s.rows - 1
        }) - s.offset,
        if c.col < s.cols {
            c.col as int
        } else {
            s.cols - 1
        },
    )
}

pub fn spot_at(c: CellSpot, s: &Screen) -> (r: Spot)
    requires
        screen_ok(*s),
    ensures
        (r.line as int, r.col as int) == spot_of(c, *s),
{
    let row: i32 = if c.row < s.rows as u64 {
        c.row as i32
    } else {
        s.rows - 1
    };
    let col: i32 = if c.col < s.cols as u64 {
        c.col as i32
    } else {
        s.cols - 1
    };
    Spot { line: row - s.offset, col }
}

/// How far the display is scrolled up when a mark is at its top.
pub open spec fn mark_offset(mark: u64, clock: int, cursor_row: int) -> int {
    (if mark < clock {
        clock - mark
    } else {
        0
    }) - cursor_row
}

/// The newest mark above the display, among the first `n`, within reach.
pub open spec fn older_mark(marks: Seq<u64>, clock: int, s: Screen, n: int) -> Option<int>
    decreases n,
{
    if n <= 0 || n > marks.len() {
        None
    } else {
        let o = mark_offset(marks[n - 1], clock, s.cursor_row as int);
        if s.offset < o <= s.history {
            Some(o)
        } else {
            older_mark(marks, clock, s, n - 1)
        }
    }
}

/// The oldest mark below the top of the display, from `i` on.
pub open spec fn newer_mark(marks: Seq<u64>, clock: int, s: Screen, i: int) -> Option<int>
    decreases marks.len() - i,
{
    if i < 0 || i >= marks.len() {
        None
    } else {
        let o = mark_offset(marks[i], clock, s.cursor_row as int);
        if 0 <= o < s.offset {
            Some(o)
        } else {
            newer_mark(marks, clock, s, i + 1)
        }
    }
}

/// How a jump between prompts scrolls. Downwards it ends at the live screen
/// where no mark is left; an alternate screen has no prompts.
pub open spec fn prompt_scroll(marks: Seq<u64>, clock: int, s: Screen, older: bool) -> Option<int> {
    if marks.len() == 0 || modes::mode_has(s.mode, modes::ALT_SCREEN) {
        None
    } else {
        let to = if older {
            older_mark(marks, clock, s, marks.len() as int)
        } else {
            match newer_mark(marks, clock, s, 0) {
                Some(o) => Some(o),
                None => if s.offset > 0 {
                    Some(0int)
                } else {
                    None
                },
            }
        };
        match to {
            Some(o) => Some(o - s.offset),
            None => None,
        }
    }
}

fn offset_of(mark: u64, clock: u64, cursor_row: i32) -> (r: i128)
    ensures
        r == mark_offset(mark, clock as int, cursor_row as int),
{
    let above: u64 = if mark < clock {
        clock - mark
    } else {
        0
    };
    above as i128 - cursor_row as i128
}

/// Lines to scroll, up for a positive number, to the prompt before or after
/// the one at the top of the display.
pub fn prompt_target(
    marks: &std::collections::VecDeque<u64>,
    clock: u64,
    s: &Screen,
    older: bool,
) -> (r: Option<i32>)
    requires
        screen_ok(*s),
    ensures
        match r {
            Some(d) => prompt_scroll(marks@, clock as int, *s, older) == Some(d as int),
            None => prompt_scroll(marks@, clock as int, *s, older) is None,
        },
{
    if marks.len() == 0 || modes::contains(s.mode, modes::ALT_SCREEN) {
        return None;
    }
    if older {
        let mut n: usize = marks.len();
        while n > 0
            invariant
                n <= marks@.len(),
                screen_ok(*s),
                older_mark(marks@, clock as int, *s, marks@.len() as int) == older_mark(
                    marks@,
                    clock as int,
                    *s,
                    n as int,
                ),
                older,
                marks@.len() > 0,
                !modes::mode_has(s.mode, modes::ALT_SCREEN),
            decreases n,
        {
            let o: i128 = offset_of(marks[n - 1], clock, s.cursor_row);
            if (s.offset as i128) < o && o <= s.history as i128 {
                return Some((o - s.offset as i128) as i32);
            }
            n -= 1;
        }
        return None;
    }
    let mut i: usize = 0;
    while i < marks.len()
        invariant
            i <= marks@.len(),
            screen_ok(*s),
            newer_mark(marks@, clock as int, *s, 0) == newer_mark(
                marks@,
                clock as int,
                *s,
                i as int,
            ),
            !older,
            marks@.len() > 0,
            !modes::mode_has(s.mode, modes::ALT_SCREEN),
        decreases marks@.len() - i,
    {
        let o: i128 = offset_of(marks[i], clock, s.cursor_row);
        if 0 <= o && o < s.offset as i128 {
            return Some((o - s.offset as i128) as i32);
        }
        i += 1;
    }
    if s.offset > 0 {
        Some(-s.offset)
    } else {
        None
    }
}

/// A jump to an older prompt scrolls up, one to a newer prompt down, and
/// neither leaves the scrollback.
pub proof fn law_prompt_jump_direction(marks: Seq<u64>, clock: int, s: Screen, older: bool)
    requires
        screen_ok(s),
    ensures
        prompt_scroll(marks, clock, s, older) matches Some(d) ==> {
            &&& older ==> d > 0
            &&& !older ==> d < 0
            &&& 0 <= s.offset + d <= s.history
        },
{
    lemma_older(marks, clock, s, marks.len() as int);
    lemma_newer(marks, clock, s, 0);
}

proof fn lemma_older(marks: Seq<u64>, clock: int, s: Screen, n: int)
    ensures
        older_mark(marks, clock, s, n) matches Some(o) ==> s.offset < o <= s.history,
    decreases n,
{
    if 0 < n <= marks.len() {
        lemma_older(marks, clock, s, n - 1);
    }
}

proof fn lemma_newer(marks: Seq<u64>, clock: int, s: Screen, i: int)
    ensures
        newer_mark(marks, clock, s, i) matches Some(o) ==> 0 <= o < s.offset,
    decreases marks.len() - i,
{
    if 0 <= i < marks.len() {
        lemma_newer(marks, clock, s, i + 1);
    }
}

/// How far to scroll for a line to come into view: not at all where it is,
/// else just as far as it takes.
pub open spec fn scroll_to(line: int, s: Screen) -> int {
    if line < -s.offset {
        -s.offset - line
    } else if line > s.rows - 1 - s.offset {
        s.rows - 1 - s.offset - line
    } else {
        0
    }
}

pub fn scroll_into_view(line: i32, s: &Screen) -> (r: i32)
    requires
        screen_ok(*s),
        -s.history <= line < s.rows,
    ensures
        r == scroll_to(line as int, *s),
{
    if line < -s.offset {
        -s.offset - line
    } else if line > s.rows - 1 - s.offset {
        s.rows - 1 - s.offset - line
    } else {
        0
    }
}

/// After the scroll that a match asks for, its line is on the screen.
pub proof fn law_match_in_view(line: int, s: Screen)
    requires
        screen_ok(s),
        -s.history <= line < s.rows,
    ensures
        0 <= s.offset + scroll_to(line, s) <= s.history,
        0 <= line + s.offset + scroll_to(line, s) < s.rows,
{
}

/// A match of a search: its first and its last cell.
#[derive(Clone, Copy, PartialEq, Eq, Debug, Structural)]
pub struct Match {
    pub start: Spot,
    pub end: Spot,
}

/// Where a search sets out from.
#[derive(Clone, Copy, PartialEq, Eq, Debug, Structural)]
pub enum Origin {
    /// This cell.
    At(Spot),
    /// The cell before this one.
    Before(Spot),
    /// The cell behind this one.
    Behind(Spot),
}

/// Where the next search sets out: past the match there is, in the direction
/// of the search, or else from the last cell of the display.
pub open spec fn search_start(found: Option<Match>, left: bool, s: Screen) -> Origin {
    match found {
        Some(m) => if left {
            Origin::Before(m.start)
        } else {
            Origin::Behind(m.end)
        },
        None => Origin::At(
            Spot { line: (s.rows - 1 - s.offset) as i32, col: (s.cols - 1) as i32 },
        ),
    }
}

pub fn search_origin(found: Option<Match>, left: bool, s: &Screen) -> (r: Origin)
    requires
        screen_ok(*s),
    ensures
        r == search_start(found, left, *s),
{
    match found {
        Some(m) => if left {
            Origin::Before(m.start)
        } else {
            Origin::Behind(m.end)
        },
        None => Origin::At(Spot { line: s.rows - 1 - s.offset, col: s.cols - 1 }),
    }
}

/// Characters that mean something in a pattern.
pub open spec fn is_meta(c: char) -> bool {
    "\\.+*?()|[]{}^$#&-~"@.contains(c)
}

/// Text as a pattern that matches just it.
pub open spec fn escaped(s: Seq<char>) -> Seq<char>
    decreases s.len(),
{
    if s.len() == 0 {
        Seq::empty()
    } else if is_meta(s.last()) {
        escaped(s.drop_last()).push('\\').push(s.last())
    } else {
        escaped(s.drop_last()).push(s.last())
    }
}

/// Escape the characters that mean something in a pattern, so that a search
/// for a selection takes it literally.
pub fn regex_escape(s: &str) -> (out: String)
    ensures
        out@ == escaped(s@),
{
    let v = text::chars_of(s);
    let meta = text::chars_of("\\.+*?()|[]{}^$#&-~");
    let mut out = String::new();
    let mut i: usize = 0;
    while i < v.len()
        invariant
            i <= v@.len(),
            meta@ == "\\.+*?()|[]{}^$#&-~"@,
            out@ == escaped(v@.take(i as int)),
        decreases v@.len() - i,
    {
        assert(v@.take(i + 1).drop_last() =~= v@.take(i as int));
        if text::has_char(meta.as_slice(), v[i]) {
            out.push('\\');
        }
        out.push(v[i]);
        i += 1;
    }
    assert(v@.take(i as int) =~= v@);
    out
}

/// The row of the display at which the top of an image is.
pub open spec fn image_row(anchor: int, clock: int, s: Screen) -> int {
    s.cursor_row + s.offset - (clock - anchor)
}

/// Whether some row of the image is on the display.
pub open spec fn image_on_show(anchor: int, rows: int, clock: int, s: Screen) -> bool {
    let row = image_row(anchor, clock, s);
    row + rows > 0 && row < s.rows
}

/// The size an image is drawn in: its own, or as large as fits the box with
/// its proportions kept, rounded down.
pub open spec fn image_fit(w: int, h: int, box_w: int, box_h: int) -> (int, int) {
    if w <= box_w && h <= box_h {
        (w, h)
    } else if box_w * h <= box_h * w {
        (box_w, h * box_w / w)
    } else {
        (w * box_h / h, box_h)
    }
}

/// Where an image is drawn.
pub open spec fn image_area(
    i: term_pane::Picture,
    clock: int,
    s: Screen,
    content: Area,
    cell: CellSize,
) -> Area {
    let left = content.w - 2 * chrome::PANE_PAD;
    let fit = image_fit(
        i.width * DIP,
        i.height * DIP,
        if left < 8 * DIP {
            8 * DIP as int
        } else {
            left
        },
        i.rows * cell.h,
    );
    Area {
        x: content.x + chrome::PANE_PAD,
        y: content.y + chrome::PANE_PAD + image_row(i.anchor, clock, s) * cell.h,
        w: fit.0,
        h: fit.1,
    }
}

/// The images on show among the first `n`, and where.
pub open spec fn images_shown(
    v: Seq<term_pane::Picture>,
    clock: int,
    s: Screen,
    content: Area,
    cell: CellSize,
    n: int,
) -> Seq<(u64, Area)>
    decreases n,
{
    if n <= 0 || n > v.len() {
        Seq::empty()
    } else {
        let before = images_shown(v, clock, s, content, cell, n - 1);
        let i = v[n - 1];
        if image_on_show(i.anchor, i.rows, clock, s) {
            before.push((i.id, image_area(i, clock, s, content, cell)))
        } else {
            before
        }
    }
}

fn fit(w: i64, h: i64, box_w: i64, box_h: i64) -> (r: (i64, i64))
    requires
        0 < w <= 0x1000_0000_0000,
        0 < h <= 0x1000_0000_0000,
        0 < box_w <= 0x1000_0000_0000,
        0 < box_h <= 0x1000_0000_0000_0000,
    ensures
        r.0 == image_fit(w as int, h as int, box_w as int, box_h as int).0,
        r.1 == image_fit(w as int, h as int, box_w as int, box_h as int).1,
        0 <= r.0 <= w,
        0 <= r.1 <= h,
{
    if w <= box_w && h <= box_h {
        return (w, h);
    }
    let (a, b, c, d): (i128, i128, i128, i128) = (
        w as i128,
        h as i128,
        box_w as i128,
        box_h as i128,
    );
    assert(0 <= c * b <= 0x1000_0000_0000 * 0x1000_0000_0000 && 0 <= d * a <= 0x1000_0000_0000_0000
        * 0x1000_0000_0000) by (nonlinear_arith)
        requires
            0 <= a <= 0x1000_0000_0000,
            0 <= b <= 0x1000_0000_0000,
            0 <= c <= 0x1000_0000_0000,
            0 <= d <= 0x1000_0000_0000_0000,
    ;
    if c * b <= d * a {
        assert(c <= a) by (nonlinear_arith)
            requires
                c * b <= d * a,
                a > c || b > d,
                a > 0,
                b > 0,
                c > 0,
                d > 0,
        ;
        assert(0 <= b * c / (a as int) <= b) by (nonlinear_arith)
            requires
                0 < c <= a,
                b > 0,
        ;
        assert(b * c == c * b) by (nonlinear_arith);
        (box_w, (b * c / a) as i64)
    } else {
        assert(d <= b) by (nonlinear_arith)
            requires
                c * b > d * a,
                a > c || b > d,
                a > 0,
                b > 0,
                c > 0,
                d > 0,
        ;
        assert(0 <= a * d / (b as int) <= a) by (nonlinear_arith)
            requires
                0 < d <= b,
                a > 0,
        ;
        assert(a * d == d * a) by (nonlinear_arith);
        ((a * d / b) as i64, box_h)
    }
}

/// An image that can be drawn: it has a size and a row at least.
pub open spec fn image_ok(i: InlineImage) -> bool {
    i.width > 0 && i.height > 0 && i.rows > 0
}

fn place_image(i: &InlineImage, row: i64, content: &RectF, cell: CellSize) -> (r: RectF)
    requires
        chrome::near(content@),
        tabs::cell_ok(cell),
        image_ok(*i),
        -0x1_0000 <= row <= 0x8000_0000,
    ensures
        forall|clock: int, s: Screen| #[trigger]
            image_row(i.anchor as int, clock, s) == row ==> r@ == image_area(
                term_pane::picture(*i),
                clock,
                s,
                content@,
                cell,
            ),
{
    let left: i64 = content.w - 2 * chrome::PANE_PAD;
    let box_w: i64 = if left < 8 * DIP {
        8 * DIP
    } else {
        left
    };
    let rows: i64 = i.rows as i64;
    let ch: i64 = cell.h;
    assert(0 < rows * ch <= 0x1_0000 * 0x100_0000 && -0x1_0000 * 0x100_0000 <= row * ch
        <= 0x8000_0000 * 0x100_0000) by (nonlinear_arith)
        requires
            0 < rows <= 0x1_0000,
            0 < ch <= 0x100_0000,
            -0x1_0000 <= row <= 0x8000_0000,
    ;
    let f = fit(i.width as i64 * DIP, i.height as i64 * DIP, box_w, rows * ch);
    RectF {
        x: content.x + chrome::PANE_PAD,
        y: content.y + chrome::PANE_PAD + row * ch,
        w: f.0,
        h: f.1,
    }
}

/// Which of a pane's images are on the display, by their index, and where.
/// There are none on an alternate screen.
pub fn visible_images(
    v: &Vec<InlineImage>,
    clock: u64,
    s: &Screen,
    content: &RectF,
    cell: CellSize,
) -> (r: Vec<(u64, RectF)>)
    requires
        screen_ok(*s),
        chrome::near(content@),
        tabs::cell_ok(cell),
        forall|i: int| 0 <= i < v@.len() ==> image_ok(#[trigger] v@[i]),
    ensures
        pane_tree::placed(r@) == (if modes::mode_has(s.mode, modes::ALT_SCREEN) {
            Seq::empty()
        } else {
            images_shown(
                term_pane::pictures(v@),
                clock as int,
                *s,
                content@,
                cell,
                v@.len() as int,
            )
        }),
{
    let mut r: Vec<(u64, RectF)> = Vec::new();
    assert(pane_tree::placed(r@) =~= Seq::empty());
    if modes::contains(s.mode, modes::ALT_SCREEN) {
        return r;
    }
    let mut k: usize = 0;
    let ghost all = term_pane::pictures(v@);
    while k < v.len()
        invariant
            k <= v@.len(),
            all == term_pane::pictures(v@),
            screen_ok(*s),
            chrome::near(content@),
            tabs::cell_ok(cell),
            forall|i: int| 0 <= i < v@.len() ==> image_ok(#[trigger] v@[i]),
            pane_tree::placed(r@) == images_shown(
                all,
                clock as int,
                *s,
                content@,
                cell,
                k as int,
            ),
        decreases v@.len() - k,
    {
        let i = &v[k];
        assert(all[k as int] == term_pane::picture(*i));
        let row: i128 = s.cursor_row as i128 + s.offset as i128 - (clock as i128
            - i.anchor as i128);
        let ghost before = r@;
        if row + i.rows as i128 > 0 && row < s.rows as i128 {
            let at = place_image(i, row as i64, content, cell);
            assert(image_row(i.anchor as int, clock as int, *s) == row);
            r.push((i.id, at));
            assert(pane_tree::placed(r@) =~= pane_tree::placed(before).push((i.id, at@)));
        }
        k += 1;
    }
    r
}

/// An image is never drawn larger than it is, nor wider or higher than its
/// place.
pub proof fn law_image_fits(w: int, h: int, box_w: int, box_h: int)
    requires
        0 < w,
        0 < h,
        0 < box_w,
        0 < box_h,
    ensures
        0 <= image_fit(w, h, box_w, box_h).0 <= w,
        0 <= image_fit(w, h, box_w, box_h).1 <= h,
        image_fit(w, h, box_w, box_h).0 <= box_w,
        image_fit(w, h, box_w, box_h).1 <= box_h,
{
    if w <= box_w && h <= box_h {
    } else if box_w * h <= box_h * w {
        assert(box_w <= w && 0 <= h * box_w / w <= h && h * box_w / w <= box_h)
            by (nonlinear_arith)
            requires
                box_w * h <= box_h * w,
                w > box_w || h > box_h,
                w > 0,
                h > 0,
                box_w > 0,
                box_h > 0,
        ;
    } else {
        assert(box_h <= h && 0 <= w * box_h / h <= w && w * box_h / h <= box_w)
            by (nonlinear_arith)
            requires
                box_w * h > box_h * w,
                w > box_w || h > box_h,
                w > 0,
                h > 0,
                box_w > 0,
                box_h > 0,
        ;
    }
}

/// A jump to an older prompt goes to the nearest one above the display: some
/// mark is then at its top, and none within reach lies between. Prompts are
/// marked in the order in which they came.
pub proof fn law_older_prompt_is_nearest(marks: Seq<u64>, clock: int, s: Screen, d: int, k: int)
    requires
        screen_ok(s),
        forall|i: int, j: int| 0 <= i <= j < marks.len() ==> marks[i] <= marks[j],
        forall|i: int| 0 <= i < marks.len() ==> #[trigger] marks[i] <= clock,
        prompt_scroll(marks, clock, s, true) == Some(d),
        0 <= k < marks.len(),
    ensures
        exists|i: int|
            0 <= i < marks.len() && s.offset + d == clock - #[trigger] marks[i] - s.cursor_row,
        !(s.offset < clock - marks[k] - s.cursor_row < s.offset + d),
{
    lemma_older_nearest(marks, clock, s, marks.len() as int, k);
}

proof fn lemma_older_nearest(marks: Seq<u64>, clock: int, s: Screen, n: int, k: int)
    requires
        screen_ok(s),
        forall|i: int, j: int| 0 <= i <= j < marks.len() ==> marks[i] <= marks[j],
        forall|i: int| 0 <= i < marks.len() ==> #[trigger] marks[i] <= clock,
        0 <= n <= marks.len(),
        older_mark(marks, clock, s, n) is Some,
    ensures
        exists|i: int|
            0 <= i < n && older_mark(marks, clock, s, n)->0 == clock - #[trigger] marks[i]
                - s.cursor_row,
        0 <= k < n ==> !(s.offset < clock - marks[k] - s.cursor_row < older_mark(
            marks,
            clock,
            s,
            n,
        )->0),
    decreases n,
{
    if n > 0 {
        let o = clock - marks[n - 1] - s.cursor_row;
        if s.offset < o <= s.history {
            assert(older_mark(marks, clock, s, n) == Some(o));
        } else {
            lemma_older_nearest(marks, clock, s, n - 1, k);
            let at = older_mark(marks, clock, s, n - 1)->0;
            if 0 <= k < n {
                assert(marks[k] <= marks[n - 1]);
                let i = choose|i: int| 0 <= i < n - 1 && at == clock - #[trigger] marks[i]
                    - s.cursor_row;
                assert(marks[i] <= marks[n - 1]);
                lemma_older(marks, clock, s, n - 1);
            }
        }
    }
}

/// Where a mark lies above the display and within the scrollback, a jump to an
/// older prompt scrolls.
pub proof fn law_older_prompt_is_found(marks: Seq<u64>, clock: int, s: Screen, k: int)
    requires
        screen_ok(s),
        s.mode & 0x1000 == 0,
        0 <= k < marks.len(),
        marks[k] <= clock,
        s.offset < clock - marks[k] - s.cursor_row <= s.history,
    ensures
        prompt_scroll(marks, clock, s, true) is Some,
{
    let m = s.mode;
    assert(m & 0x1000 == 0 ==> m & 0x1000 != 0x1000) by (bit_vector);
    lemma_older_found(marks, clock, s, marks.len() as int, k);
}

proof fn lemma_older_found(marks: Seq<u64>, clock: int, s: Screen, n: int, k: int)
    requires
        0 <= k < n <= marks.len(),
        marks[k] <= clock,
        s.offset < clock - marks[k] - s.cursor_row <= s.history,
    ensures
        older_mark(marks, clock, s, n) is Some,
    decreases n,
{
    if k < n - 1 {
        lemma_older_found(marks, clock, s, n - 1, k);
    }
}

/// A jump to a newer prompt goes to the nearest one below the top of the
/// display that can be scrolled to, or else to the live screen: no mark that
/// can stand at the top lies between.
pub proof fn law_newer_prompt_is_nearest(marks: Seq<u64>, clock: int, s: Screen, d: int, k: int)
    requires
        screen_ok(s),
        forall|i: int, j: int| 0 <= i <= j < marks.len() ==> marks[i] <= marks[j],
        forall|i: int| 0 <= i < marks.len() ==> #[trigger] marks[i] <= clock,
        prompt_scroll(marks, clock, s, false) == Some(d),
        0 <= k < marks.len(),
    ensures
        s.offset + d == 0 || exists|i: int|
            0 <= i < marks.len() && s.offset + d == clock - #[trigger] marks[i] - s.cursor_row,
        !(s.offset + d < clock - marks[k] - s.cursor_row < s.offset),
{
    lemma_newer_nearest(marks, clock, s, 0, k);
    lemma_newer(marks, clock, s, 0);
}

proof fn lemma_newer_nearest(marks: Seq<u64>, clock: int, s: Screen, n: int, k: int)
    requires
        screen_ok(s),
        forall|i: int, j: int| 0 <= i <= j < marks.len() ==> marks[i] <= marks[j],
        forall|i: int| 0 <= i < marks.len() ==> #[trigger] marks[i] <= clock,
        0 <= n <= marks.len(),
    ensures
        newer_mark(marks, clock, s, n) matches Some(o) ==> exists|i: int|
            n <= i < marks.len() && o == clock - #[trigger] marks[i] - s.cursor_row,
        newer_mark(marks, clock, s, n) matches Some(o) ==> (n <= k < marks.len() ==> !(o < clock
            - marks[k] - s.cursor_row < s.offset)),
        newer_mark(marks, clock, s, n) is None ==> (n <= k < marks.len() ==> !(0 <= clock - marks[k]
            - s.cursor_row < s.offset)),
    decreases marks.len() - n,
{
    if n < marks.len() {
        let o = clock - marks[n] - s.cursor_row;
        if 0 <= o < s.offset {
            assert(newer_mark(marks, clock, s, n) == Some(o));
            if n <= k < marks.len() {
                assert(marks[n] <= marks[k]);
            }
        } else {
            lemma_newer_nearest(marks, clock, s, n + 1, k);
            if let Some(at) = newer_mark(marks, clock, s, n + 1) {
                let i = choose|i: int| n + 1 <= i < marks.len() && at == clock
                    - #[trigger] marks[i] - s.cursor_row;
                assert(marks[n] <= marks[i]);
                lemma_newer(marks, clock, s, n + 1);
            }
        }
    }
}

/// Downwards a jump always leads somewhere while the display is scrolled up.
pub proof fn law_newer_prompt_is_found(marks: Seq<u64>, clock: int, s: Screen)
    requires
        screen_ok(s),
        s.mode & 0x1000 == 0,
        marks.len() > 0,
    ensures
        prompt_scroll(marks, clock, s, false) is Some <==> s.offset > 0,
{
    let m = s.mode;
    assert(m & 0x1000 == 0 ==> m & 0x1000 != 0x1000) by (bit_vector);
    lemma_newer(marks, clock, s, 0);
}

/// An image stays with its line: where the display is scrolled by `k` lines
/// more, the image is drawn `k` rows lower, in the same place otherwise and in
/// the same size; and where `k` lines have been printed since, with the cursor
/// where it was, it is drawn `k` rows higher.
pub proof fn law_images_scroll_with_text(
    i: term_pane::Picture,
    clock: int,
    s: Screen,
    t: Screen,
    content: Area,
    cell: CellSize,
    k: int,
)
    requires
        t.offset == s.offset + k,
        t.cursor_row == s.cursor_row,
    ensures
        ({
            let a = image_area(i, clock, s, content, cell);
            let b = image_area(i, clock, t, content, cell);
            let c = image_area(i, clock + k, s, content, cell);
            &&& b.y == a.y + k * cell.h
            &&& c.y == a.y - k * cell.h
            &&& b.x == a.x && b.w == a.w && b.h == a.h
            &&& c.x == a.x && c.w == a.w && c.h == a.h
        }),
{
    let r = image_row(i.anchor, clock, s);
    let h = cell.h as int;
    assert((r + k) * h == r * h + k * h && (r - k) * h == r * h - k * h) by (nonlinear_arith);
}

/// An image that was printed at the cursor, and just now, is drawn at the row
/// of the cursor, at the left edge of the text.
pub proof fn law_image_starts_at_cursor(
    i: term_pane::Picture,
    s: Screen,
    content: Area,
    cell: CellSize,
)
    requires
        s.offset == 0,
    ensures
        ({
            let a = image_area(i, i.anchor, s, content, cell);
            &&& a.y == content.y + chrome::PANE_PAD + s.cursor_row * cell.h
            &&& a.x == content.x + chrome::PANE_PAD
        }),
{
}

/// An image is on show just where one of its rows is on the display, and all
/// that are on show are drawn, in order, each in its own place.
pub proof fn law_images_on_show(
    v: Seq<term_pane::Picture>,
    clock: int,
    s: Screen,
    content: Area,
    cell: CellSize,
    all: Seq<(u64, Area)>,
    k: int,
    j: int,
)
    requires
        all == images_shown(v, clock, s, content, cell, v.len() as int),
        0 <= k < v.len(),
        0 <= j < all.len(),
    ensures
        ({
            let top = s.cursor_row + s.offset - (clock - v[k].anchor);
            top < s.rows && top + v[k].rows > 0 ==> all.contains(
                (v[k].id, image_area(v[k], clock, s, content, cell)),
            )
        }),
        exists|l: int|
            #![trigger v[l]]
            0 <= l < v.len() && all[j] == (v[l].id, image_area(v[l], clock, s, content, cell)) && {
                let top = s.cursor_row + s.offset - (clock - v[l].anchor);
                top < s.rows && top + v[l].rows > 0
            },
{
    lemma_shown(v, clock, s, content, cell, v.len() as int, k);
    let l = choose|l: int|
        #![trigger v[l]]
        0 <= l < v.len() && all[j] == (v[l].id, image_area(v[l], clock, s, content, cell))
            && image_on_show(v[l].anchor, v[l].rows, clock, s);
    assert(0 <= l < v.len() && v[l] == v[l]);
}

proof fn lemma_shown(
    v: Seq<term_pane::Picture>,
    clock: int,
    s: Screen,
    content: Area,
    cell: CellSize,
    n: int,
    k: int,
)
    requires
        0 <= n <= v.len(),
        0 <= k < v.len(),
    ensures
        k < n && image_on_show(v[k].anchor, v[k].rows, clock, s) ==> images_shown(
            v,
            clock,
            s,
            content,
            cell,
            n,
        ).contains((v[k].id, image_area(v[k], clock, s, content, cell))),
        forall|j: int|
            0 <= j < images_shown(v, clock, s, content, cell, n).len() ==> exists|l: int|
                #![trigger v[l]]
                0 <= l < n && #[trigger] images_shown(v, clock, s, content, cell, n)[j] == (
                    v[l].id,
                    image_area(v[l], clock, s, content, cell),
                ) && image_on_show(v[l].anchor, v[l].rows, clock, s),
    decreases n,
{
    if n > 0 {
        lemma_shown(v, clock, s, content, cell, n - 1, k);
        let before = images_shown(v, clock, s, content, cell, n - 1);
        let all = images_shown(v, clock, s, content, cell, n);
        let here = (v[n - 1].id, image_area(v[n - 1], clock, s, content, cell));
        if image_on_show(v[n - 1].anchor, v[n - 1].rows, clock, s) {
            assert(all == before.push(here));
            assert(all[before.len() as int] == here);
        }
        let mine = (v[k].id, image_area(v[k], clock, s, content, cell));
        if k < n - 1 && before.contains(mine) {
            let j = choose|j: int| 0 <= j < before.len() && before[j] == mine;
            assert(all[j] == mine);
        }
        assert forall|j: int| 0 <= j < all.len() implies exists|l: int|
            #![trigger v[l]]
            0 <= l < n && #[trigger] all[j] == (v[l].id, image_area(v[l], clock, s, content, cell))
                && image_on_show(v[l].anchor, v[l].rows, clock, s) by {
            if j < before.len() {
                assert(all[j] == before[j]);
                let l = choose|l: int|
                    #![trigger v[l]]
                    0 <= l < n - 1 && before[j] == (
                        v[l].id,
                        image_area(v[l], clock, s, content, cell),
                    ) && image_on_show(v[l].anchor, v[l].rows, clock, s);
                assert(0 <= l < n && all[j] == (
                    v[l].id,
                    image_area(v[l], clock, s, content, cell),
                ));
            } else {
                assert(v[n - 1] == v[n - 1]);
            }
        }
    }
}

/// An image keeps its proportions, up to rounding: it fits as large as its
/// place allows.
pub proof fn law_image_proportions(w: int, h: int, box_w: int, box_h: int)
    requires
        0 < w,
        0 < h,
        0 < box_w,
        0 < box_h,
    ensures
        ({
            let f = image_fit(w, h, box_w, box_h);
            &&& w <= box_w && h <= box_h ==> f == (w, h)
            &&& w > box_w || h > box_h ==> f.0 == box_w || f.1 == box_h
            &&& f.0 * h - f.1 * w < w && f.1 * w - f.0 * h < h
        }),
{
    if !(w <= box_w && h <= box_h) {
        if box_w * h <= box_h * w {
            let q = h * box_w / w;
            assert(0 <= box_w * h - q * w < w) by (nonlinear_arith)
                requires
                    q == h * box_w / w,
                    w > 0,
            ;
        } else {
            let q = w * box_h / h;
            assert(0 <= box_h * w - q * h < h) by (nonlinear_arith)
                requires
                    q == w * box_h / h,
                    h > 0,
            ;
        }
    } else {
        assert(w * h == h * w) by (nonlinear_arith);
    }
}

/// The cell under the pointer is the one that the display shows there: scrolling
/// the display up by a line makes the same place show the line before, and a
/// place beyond the edge counts as one at the edge.
pub proof fn law_spot_follows_display(c: CellSpot, s: Screen, t: Screen)
    requires
        screen_ok(s),
        screen_ok(t),
        t.offset == s.offset + 1,
        t.rows == s.rows,
        t.cols == s.cols,
    ensures
        spot_of(c, t).0 == spot_of(c, s).0 - 1,
        spot_of(c, t).1 == spot_of(c, s).1,
        c.row < s.rows && s.offset == 0 ==> spot_of(c, s).0 == c.row,
        c.col < s.cols ==> spot_of(c, s).1 == c.col,
        0 <= spot_of(c, s).0 + s.offset < s.rows,
        0 <= spot_of(c, s).1 < s.cols,
        c.row >= s.rows ==> spot_of(c, s).0 + s.offset == s.rows - 1,
        c.col >= s.cols ==> spot_of(c, s).1 == s.cols - 1,
{
}

/// The display is not scrolled farther than a match asks for: where its line is
/// in view already the display stays, else the line comes to rest at an edge.
pub proof fn law_match_scrolls_least(line: int, s: Screen)
    requires
        screen_ok(s),
        -s.history <= line < s.rows,
    ensures
        0 <= line + s.offset < s.rows ==> scroll_to(line, s) == 0,
        line + s.offset < 0 ==> line + s.offset + scroll_to(line, s) == 0,
        line + s.offset >= s.rows ==> line + s.offset + scroll_to(line, s) == s.rows - 1,
{
}

/// A search goes on past the match there is, to the side it is made to; the
/// first one sets out from the last cell on show.
pub proof fn law_search_goes_on(m: Match, left: bool, s: Screen)
    requires
        screen_ok(s),
    ensures
        search_start(Some(m), true, s) == Origin::Before(m.start),
        search_start(Some(m), false, s) == Origin::Behind(m.end),
        search_start(None, left, s) matches Origin::At(c) && c.line + s.offset == s.rows - 1
            && c.col == s.cols - 1,
{
}

/// What an escaped text says: a backslash stands for the character behind it.
pub open spec fn unescaped(s: Seq<char>) -> Seq<char>
    decreases s.len(),
{
    if s.len() == 0 {
        Seq::empty()
    } else if s[0] == '\\' && s.len() > 1 {
        seq![s[1]] + unescaped(s.skip(2))
    } else {
        seq![s[0]] + unescaped(s.skip(1))
    }
}

proof fn lemma_unescape_front(s: Seq<char>, tail: Seq<char>)
    ensures
        unescaped(escaped(s) + tail) == s + unescaped(tail),
    decreases s.len(),
{
    reveal_strlit("\\.+*?()|[]{}^$#&-~");
    assert("\\.+*?()|[]{}^$#&-~"@[0] == '\\');
    assert(is_meta('\\'));
    if s.len() == 0 {
        assert(escaped(s) + tail =~= tail);
        assert(s + unescaped(tail) =~= unescaped(tail));
    } else {
        let c = s.last();
        let init = s.drop_last();
        let mine = if is_meta(c) {
            seq!['\\', c]
        } else {
            seq![c]
        };
        assert(escaped(s) + tail =~= escaped(init) + (mine + tail));
        lemma_unescape_front(init, mine + tail);
        assert((mine + tail).skip(mine.len() as int) =~= tail);
        assert(unescaped(mine + tail) =~= seq![c] + unescaped(tail));
        assert(init + (seq![c] + unescaped(tail)) =~= s + unescaped(tail));
    }
}

/// A text that was escaped as a pattern says what it said.
pub proof fn law_escaped_reads_back(s: Seq<char>)
    ensures
        unescaped(escaped(s)) == s,
{
    lemma_unescape_front(s, Seq::empty());
    assert(escaped(s) + Seq::<char>::empty() =~= escaped(s));
    assert(s + Seq::<char>::empty() =~= s);
}

} // verus!
