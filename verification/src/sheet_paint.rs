//! The marks that draw the list of shortcuts.
use vstd::prelude::*;
use crate::cheatsheet;
use crate::cheatsheet::Section;
use crate::chrome;
use crate::paint;
use crate::paint::{Drawn, Face, Mark};
use crate::pane_tree;
use crate::pane_tree::{RectF, DIP};
use crate::text;
use crate::tones;
use crate::tones::Tone;

verus! {

pub const ROW_H: i64 = 24 * DIP;

pub const TITLE_H: i64 = 30 * DIP;

pub const SECTION_GAP: i64 = 10 * DIP;

pub const COL_W: i64 = 352 * DIP;

pub const KEYS_W: i64 = 168 * DIP;

pub const SHEET_PAD: i64 = 18 * DIP;

/// Most bindings of the user that the list can hold.
pub const MAX_BINDS: usize = 0x100_0000;

/// A row as it is drawn.
pub struct Row {
    pub keys: String,
    pub action: String,
}

/// A section as it is drawn.
pub struct Block {
    pub title: String,
    pub rows: Vec<Row>,
}

/// What the rows of a block show.
pub open spec fn row_texts(v: Seq<Row>) -> Seq<(Seq<char>, Seq<char>)> {
    v.map_values(|r: Row| (r.keys@, r.action@))
}

/// A title and the rows below it.
#[verifier::ext_equal]
pub struct BlockText {
    pub title: Seq<char>,
    pub rows: Seq<(Seq<char>, Seq<char>)>,
}

pub open spec fn block_text(b: Block) -> BlockText {
    BlockText { title: b.title@, rows: row_texts(b.rows@) }
}

pub open spec fn block_texts(v: Seq<Block>) -> Seq<BlockText> {
    v.map_values(|b: Block| block_text(b))
}

/// The first `n` rows without those that are released to the shell.
pub open spec fn bound_rows(
    rows: Seq<(Seq<char>, Seq<char>)>,
    passthrough: Seq<String>,
    n: int,
) -> Seq<(Seq<char>, Seq<char>)>
    decreases n,
{
    if n <= 0 || n > rows.len() {
        Seq::empty()
    } else if cheatsheet::is_released(rows[n - 1].0, passthrough) {
        bound_rows(rows, passthrough, n - 1)
    } else {
        bound_rows(rows, passthrough, n - 1).push(rows[n - 1])
    }
}

pub open spec fn built_in(
    title: Seq<char>,
    rows: Seq<(Seq<char>, Seq<char>)>,
    passthrough: Seq<String>,
) -> BlockText {
    BlockText { title, rows: bound_rows(rows, passthrough, rows.len() as int) }
}

/// The left column: tabs, panes, and the user's own bindings where there are any.
pub open spec fn left_blocks(binds: Seq<String>, passthrough: Seq<String>) -> Seq<BlockText> {
    seq![
        built_in("Tabs"@, cheatsheet::tabs_rows(), passthrough),
        built_in("Panes"@, cheatsheet::panes_rows(), passthrough),
    ] + if binds.len() > 0 {
        seq![
            BlockText {
                title: "Yours (init.lua)"@,
                rows: binds.map_values(|k: String| (k@, "init.lua keybinding"@)),
            },
        ]
    } else {
        Seq::empty()
    }
}

/// The right column: terminal, window and app.
pub open spec fn right_blocks(passthrough: Seq<String>) -> Seq<BlockText> {
    seq![
        built_in("Terminal"@, cheatsheet::terminal_rows(), passthrough),
        built_in("Window & app"@, cheatsheet::window_rows(), passthrough),
    ]
}

/// How tall the first `n` blocks are.
pub open spec fn tall(v: Seq<BlockText>, n: int) -> int
    decreases n,
{
    if n <= 0 || n > v.len() {
        0
    } else {
        tall(v, n - 1) + TITLE_H + v[n - 1].rows.len() * ROW_H + SECTION_GAP
    }
}

pub open spec fn row_marks(r: (Seq<char>, Seq<char>), x: int, y: int) -> Seq<Drawn> {
    seq![
        Drawn::Text(
            r.0,
            Face::Ui,
            paint::edges(x, y, x + KEYS_W, y + ROW_H),
            tones::full(Tone::TabTextActive),
        ),
        Drawn::Text(
            r.1,
            Face::Ui,
            paint::edges(x + KEYS_W + 8 * DIP, y, x + COL_W, y + ROW_H),
            tones::wash(Tone::TabText, 900),
        ),
    ]
}

/// The first `n` rows of a block.
pub open spec fn rows_marks(v: Seq<(Seq<char>, Seq<char>)>, x: int, y: int, n: int) -> Seq<Drawn>
    decreases n,
{
    if n <= 0 || n > v.len() {
        Seq::empty()
    } else {
        rows_marks(v, x, y, n - 1) + row_marks(v[n - 1], x, y + (n - 1) * ROW_H)
    }
}

/// A block at a place: its title, and its rows below it.
pub open spec fn block_marks(b: BlockText, x: int, y: int) -> Seq<Drawn> {
    seq![
        Drawn::Text(
            b.title,
            Face::Ui,
            paint::edges(x, y + 4 * DIP, x + COL_W, y + TITLE_H),
            tones::full(Tone::Accent),
        ),
    ] + rows_marks(b.rows, x, y + TITLE_H, b.rows.len() as int)
}

/// The first `n` blocks of a column, one below the other.
pub open spec fn column_marks(v: Seq<BlockText>, x: int, y: int, n: int) -> Seq<Drawn>
    decreases n,
{
    if n <= 0 || n > v.len() {
        Seq::empty()
    } else {
        column_marks(v, x, y, n - 1) + block_marks(v[n - 1], x, y + tall(v, n - 1))
    }
}

/// The box of the list, in a window of a size.
pub open spec fn sheet_box(width: int, height: int, content: int) -> pane_tree::Area {
    let most = 3 * SHEET_PAD + 2 * COL_W;
    let pw = if most < width - 24 * DIP {
        most
    } else {
        width - 24 * DIP
    };
    let ph = content + 74 * DIP;
    let mid = chrome::TABBAR_H + (height - chrome::TABBAR_H - ph) / 2;
    let top = chrome::TABBAR_H + 8 * DIP;
    pane_tree::Area {
        x: (width - pw) / 2,
        y: if mid < top {
            top
        } else {
            mid
        },
        w: pw,
        h: ph,
    }
}

pub open spec fn larger(a: int, b: int) -> int {
    if a < b {
        b
    } else {
        a
    }
}

/// The veil over the window, and the box with its heading.
pub open spec fn head_marks(width: int, height: int, bx: pane_tree::Area) -> Seq<Drawn> {
    seq![
        Drawn::Fill(paint::edges(0, 0, width, height), tones::wash(Tone::Black, 450)),
        Drawn::Rounded(bx, 8 * DIP as int, tones::wash(Tone::ChromeBg, 980)),
        Drawn::Frame(bx, DIP as int, tones::wash(Tone::Accent, 800)),
        Drawn::Text(
            "Keyboard shortcuts"@,
            Face::Ui,
            paint::edges(
                bx.x + SHEET_PAD,
                bx.y + 10 * DIP,
                bx.x + bx.w - SHEET_PAD,
                bx.y + 36 * DIP,
            ),
            tones::full(Tone::TabTextActive),
        ),
    ]
}

/// How to dismiss the list.
pub open spec fn foot_marks(bx: pane_tree::Area) -> Seq<Drawn> {
    seq![
        Drawn::Text(
            "press any key to dismiss"@,
            Face::Ui,
            paint::edges(
                bx.x + SHEET_PAD,
                bx.y + bx.h - 28 * DIP,
                bx.x + bx.w - SHEET_PAD,
                bx.y + bx.h - 6 * DIP,
            ),
            tones::wash(Tone::TabText, 550),
        ),
    ]
}

/// The box of a list with two columns.
pub open spec fn list_box(
    width: int,
    height: int,
    left: Seq<BlockText>,
    right: Seq<BlockText>,
) -> pane_tree::Area {
    sheet_box(
        width,
        height,
        larger(tall(left, left.len() as int), tall(right, right.len() as int)),
    )
}

/// The list of shortcuts: a veil, the box with its two columns, and how to
/// dismiss it.
pub open spec fn sheet_marks(
    width: int,
    height: int,
    binds: Seq<String>,
    passthrough: Seq<String>,
) -> Seq<Drawn> {
    let left = left_blocks(binds, passthrough);
    let right = right_blocks(passthrough);
    let bx = list_box(width, height, left, right);
    head_marks(width, height, bx) + column_marks(
        left,
        bx.x + SHEET_PAD,
        bx.y + 44 * DIP,
        left.len() as int,
    ) + column_marks(
        right,
        bx.x + 2 * SHEET_PAD + COL_W,
        bx.y + 44 * DIP,
        right.len() as int,
    ) + foot_marks(bx)
}

proof fn lemma_bound_rows(rows: Seq<(Seq<char>, Seq<char>)>, p: Seq<String>, n: int)
    requires
        0 <= n <= rows.len(),
    ensures
        bound_rows(rows, p, n).len() <= n,
    decreases n,
{
    if n > 0 {
        lemma_bound_rows(rows, p, n - 1);
    }
}

fn keep_bound(s: &Section, passthrough: &[String]) -> (b: Block)
    requires
        s.entries@.len() <= 0x1000,
    ensures
        block_text(b) == built_in(s.title@, cheatsheet::rows(s.entries@), passthrough@),
        b.rows@.len() <= 0x1000,
{
    let ghost all = cheatsheet::rows(s.entries@);
    let mut out: Vec<Row> = Vec::new();
    let mut i: usize = 0;
    assert(row_texts(out@) =~= bound_rows(all, passthrough@, 0));
    while i < s.entries.len()
        invariant
            i <= s.entries@.len(),
            all == cheatsheet::rows(s.entries@),
            row_texts(out@) == bound_rows(all, passthrough@, i as int),
        decreases s.entries@.len() - i,
    {
        let e = &s.entries[i];
        assert(all[i as int] == (e.keys@, e.action@));
        if !cheatsheet::released(e.keys, passthrough) {
            let ghost before = row_texts(out@);
            out.push(Row { keys: text::owned(e.keys), action: text::owned(e.action) });
            assert(row_texts(out@) =~= before.push((e.keys@, e.action@)));
        }
        i += 1;
    }
    proof {
        lemma_bound_rows(all, passthrough@, all.len() as int);
        assert(row_texts(out@).len() == out@.len());
    }
    Block { title: text::owned(s.title), rows: out }
}

fn own_rows(binds: &[String]) -> (v: Vec<Row>)
    ensures
        row_texts(v@) == binds@.map_values(|k: String| (k@, "init.lua keybinding"@)),
{
    let mut v: Vec<Row> = Vec::new();
    let mut i: usize = 0;
    while i < binds.len()
        invariant
            i <= binds@.len(),
            v@.len() == i,
            forall|j: int|
                0 <= j < i ==> (#[trigger] v@[j]).keys@ == binds@[j]@ && v@[j].action@
                    == "init.lua keybinding"@,
        decreases binds@.len() - i,
    {
        v.push(Row { keys: binds[i].clone(), action: text::owned("init.lua keybinding") });
        i += 1;
    }
    assert(row_texts(v@) =~= binds@.map_values(|k: String| (k@, "init.lua keybinding"@)));
    v
}

/// The two columns of the list, without the rows that are released to the
/// shell; the user's own bindings join the left one.
pub fn sheet_columns(binds: &[String], passthrough: &[String]) -> (r: (Vec<Block>, Vec<Block>))
    requires
        binds@.len() <= MAX_BINDS,
    ensures
        block_texts(r.0@) == left_blocks(binds@, passthrough@),
        block_texts(r.1@) == right_blocks(passthrough@),
{
    let (l, r) = cheatsheet::columns();
    let mut left: Vec<Block> = Vec::new();
    let mut right: Vec<Block> = Vec::new();
    assert(cheatsheet::rows(l@[0].entries@).len() == l@[0].entries@.len());
    assert(cheatsheet::rows(l@[1].entries@).len() == l@[1].entries@.len());
    assert(cheatsheet::rows(r@[0].entries@).len() == r@[0].entries@.len());
    assert(cheatsheet::rows(r@[1].entries@).len() == r@[1].entries@.len());
    left.push(keep_bound(&l[0], passthrough));
    left.push(keep_bound(&l[1], passthrough));
    if binds.len() > 0 {
        left.push(Block { title: text::owned("Yours (init.lua)"), rows: own_rows(binds) });
    }
    right.push(keep_bound(&r[0], passthrough));
    right.push(keep_bound(&r[1], passthrough));
    assert(block_texts(left@) =~= left_blocks(binds@, passthrough@));
    assert(block_texts(right@) =~= right_blocks(passthrough@));
    (left, right)
}

/// Blocks few and short enough to be laid out.
pub open spec fn blocks_fit(v: Seq<BlockText>) -> bool {
    v.len() <= 3 && forall|i: int| 0 <= i < v.len() ==> (#[trigger] v[i]).rows.len() <= MAX_BINDS
}

proof fn lemma_tall(v: Seq<BlockText>, n: int)
    requires
        blocks_fit(v),
        0 <= n <= v.len(),
    ensures
        0 <= tall(v, n) <= n * 0x100_0000_0000,
    decreases n,
{
    if n > 0 {
        lemma_tall(v, n - 1);
        assert(v[n - 1].rows.len() <= MAX_BINDS);
    }
}

proof fn lemma_blocks_fit(binds: Seq<String>, p: Seq<String>)
    requires
        binds.len() <= MAX_BINDS,
    ensures
        blocks_fit(left_blocks(binds, p)),
        blocks_fit(right_blocks(p)),
{
    lemma_bound_rows(cheatsheet::tabs_rows(), p, cheatsheet::tabs_rows().len() as int);
    lemma_bound_rows(cheatsheet::panes_rows(), p, cheatsheet::panes_rows().len() as int);
    lemma_bound_rows(cheatsheet::terminal_rows(), p, cheatsheet::terminal_rows().len() as int);
    lemma_bound_rows(cheatsheet::window_rows(), p, cheatsheet::window_rows().len() as int);
}

fn height_of(v: &Vec<Block>) -> (r: i64)
    requires
        blocks_fit(block_texts(v@)),
    ensures
        r == tall(block_texts(v@), v@.len() as int),
        0 <= r <= 0x300_0000_0000,
{
    let ghost t = block_texts(v@);
    let mut h: i64 = 0;
    let mut i: usize = 0;
    while i < v.len()
        invariant
            i <= v@.len(),
            t == block_texts(v@),
            blocks_fit(t),
            h == tall(t, i as int),
        decreases v@.len() - i,
    {
        proof {
            lemma_tall(t, i as int);
        }
        assert(t[i as int] == block_text(v@[i as int]));
        assert(t[i as int].rows.len() == v@[i as int].rows@.len());
        h = h + TITLE_H + v[i].rows.len() as i64 * ROW_H + SECTION_GAP;
        i += 1;
    }
    proof {
        lemma_tall(t, t.len() as int);
    }
    h
}

fn put_row(v: &mut Vec<Mark>, r: &Row, x: i64, y: i64)
    requires
        -0x1000_0000_0000 <= x <= 0x1000_0000_0000,
        -0x1000_0000_0000 <= y <= 0x1000_0000_0000,
    ensures
        paint::drawing(final(v)@) == paint::drawing(old(v)@) + row_marks(
            (r.keys@, r.action@),
            x as int,
            y as int,
        ),
{
    let ghost before = paint::drawing(v@);
    let at = paint::rect(x, y, x + KEYS_W, y + ROW_H);
    paint::put(
        v,
        Mark::Text(r.keys.clone(), Face::Ui, at, tones::tint(Tone::TabTextActive, 1000)),
    );
    let at = paint::rect(x + KEYS_W + 8 * DIP, y, x + COL_W, y + ROW_H);
    paint::put(v, Mark::Text(r.action.clone(), Face::Ui, at, tones::tint(Tone::TabText, 900)));
    assert(paint::drawing(v@) =~= before + row_marks((r.keys@, r.action@), x as int, y as int));
}

fn put_block(v: &mut Vec<Mark>, b: &Block, x: i64, y: i64)
    requires
        -0x100_0000_0000 <= x <= 0x100_0000_0000,
        -0x400_0000_0000 <= y <= 0x400_0000_0000,
        b.rows@.len() <= MAX_BINDS,
    ensures
        paint::drawing(final(v)@) == paint::drawing(old(v)@) + block_marks(
            block_text(*b),
            x as int,
            y as int,
        ),
{
    let ghost before = paint::drawing(v@);
    let at = paint::rect(x, y + 4 * DIP, x + COL_W, y + TITLE_H);
    paint::put(v, Mark::Text(b.title.clone(), Face::Ui, at, tones::tint(Tone::Accent, 1000)));
    let ghost head = paint::drawing(v@);
    let ghost rows = row_texts(b.rows@);
    let y0: i64 = y + TITLE_H;
    let mut i: usize = 0;
    assert(head =~= head + rows_marks(rows, x as int, y0 as int, 0));
    while i < b.rows.len()
        invariant
            i <= b.rows@.len() <= MAX_BINDS,
            rows == row_texts(b.rows@),
            -0x100_0000_0000 <= x <= 0x100_0000_0000,
            -0x401_0000_0000 <= y0 <= 0x401_0000_0000,
            paint::drawing(v@) == head + rows_marks(rows, x as int, y0 as int, i as int),
        decreases b.rows@.len() - i,
    {
        put_row(v, &b.rows[i], x, y0 + i as i64 * ROW_H);
        assert(rows[i as int] == (b.rows@[i as int].keys@, b.rows@[i as int].action@));
        i += 1;
        assert(paint::drawing(v@) =~= head + rows_marks(rows, x as int, y0 as int, i as int));
    }
    assert(paint::drawing(v@) =~= before + block_marks(block_text(*b), x as int, y as int));
}

fn put_column(v: &mut Vec<Mark>, c: &Vec<Block>, x: i64, y: i64)
    requires
        -0x100_0000_0000 <= x <= 0x100_0000_0000,
        -0x100_0000_0000 <= y <= 0x100_0000_0000,
        blocks_fit(block_texts(c@)),
    ensures
        paint::drawing(final(v)@) == paint::drawing(old(v)@) + column_marks(
            block_texts(c@),
            x as int,
            y as int,
            c@.len() as int,
        ),
{
    let ghost before = paint::drawing(v@);
    let ghost t = block_texts(c@);
    let mut at: i64 = y;
    let mut i: usize = 0;
    assert(before =~= before + column_marks(t, x as int, y as int, 0));
    while i < c.len()
        invariant
            i <= c@.len(),
            t == block_texts(c@),
            blocks_fit(t),
            at == y + tall(t, i as int),
            -0x100_0000_0000 <= x <= 0x100_0000_0000,
            -0x100_0000_0000 <= y <= 0x100_0000_0000,
            paint::drawing(v@) == before + column_marks(t, x as int, y as int, i as int),
        decreases c@.len() - i,
    {
        proof {
            lemma_tall(t, i as int);
        }
        assert(t[i as int] == block_text(c@[i as int]));
        assert(t[i as int].rows.len() == c@[i as int].rows@.len());
        put_block(v, &c[i], x, at);
        at = at + TITLE_H + c[i].rows.len() as i64 * ROW_H + SECTION_GAP;
        i += 1;
        assert(paint::drawing(v@) =~= before + column_marks(t, x as int, y as int, i as int));
    }
}

/// A box that can be drawn.
pub open spec fn box_ok(bx: pane_tree::Area) -> bool {
    &&& -0x100_0000_0000 <= bx.x <= 0x80_0000_0000
    &&& 0 <= bx.y <= 0x100_0000_0000
    &&& -0x100_0000_0000 <= bx.w <= 0x100_0000_0000
    &&& 0 <= bx.h <= 0x400_0000_0000
}

fn place_list(width: i64, height: i64, left: &Vec<Block>, right: &Vec<Block>) -> (bx: RectF)
    requires
        0 <= width <= pane_tree::MAX_EXTENT,
        0 <= height <= pane_tree::MAX_EXTENT,
        blocks_fit(block_texts(left@)),
        blocks_fit(block_texts(right@)),
    ensures
        bx@ == list_box(
            width as int,
            height as int,
            block_texts(left@),
            block_texts(right@),
        ),
        box_ok(bx@),
{
    proof {
        assert(block_texts(left@).len() == left@.len());
        assert(block_texts(right@).len() == right@.len());
    }
    let h0: i64 = height_of(left);
    let h1: i64 = height_of(right);
    let most: i64 = 3 * SHEET_PAD + 2 * COL_W;
    let pw: i64 = if most < width - 24 * DIP {
        most
    } else {
        width - 24 * DIP
    };
    let ph: i64 = (if h0 < h1 {
        h1
    } else {
        h0
    }) + 74 * DIP;
    let mid: i64 = chrome::TABBAR_H + paint::half(height - chrome::TABBAR_H - ph);
    let top: i64 = chrome::TABBAR_H + 8 * DIP;
    RectF {
        x: paint::half(width - pw),
        y: if mid < top {
            top
        } else {
            mid
        },
        w: pw,
        h: ph,
    }
}

fn put_head(v: &mut Vec<Mark>, width: i64, height: i64, bx: &RectF)
    requires
        0 <= width <= pane_tree::MAX_EXTENT,
        0 <= height <= pane_tree::MAX_EXTENT,
        box_ok(bx@),
    ensures
        paint::drawing(final(v)@) == paint::drawing(old(v)@) + head_marks(
            width as int,
            height as int,
            bx@,
        ),
{
    let ghost before = paint::drawing(v@);
    let veil = paint::rect(0, 0, width, height);
    paint::put(v, Mark::Fill(veil, tones::tint(Tone::Black, 450)));
    paint::put(v, Mark::Rounded(*bx, 8 * DIP, tones::tint(Tone::ChromeBg, 980)));
    paint::put(v, Mark::Frame(*bx, DIP, tones::tint(Tone::Accent, 800)));
    let at = paint::rect(
        bx.x + SHEET_PAD,
        bx.y + 10 * DIP,
        bx.x + bx.w - SHEET_PAD,
        bx.y + 36 * DIP,
    );
    paint::put(
        v,
        Mark::Text(
            text::owned("Keyboard shortcuts"),
            Face::Ui,
            at,
            tones::tint(Tone::TabTextActive, 1000),
        ),
    );
    assert(paint::drawing(v@) =~= before + head_marks(width as int, height as int, bx@));
}

fn put_foot(v: &mut Vec<Mark>, bx: &RectF)
    requires
        box_ok(bx@),
    ensures
        paint::drawing(final(v)@) == paint::drawing(old(v)@) + foot_marks(bx@),
{
    let ghost before = paint::drawing(v@);
    let at = paint::rect(
        bx.x + SHEET_PAD,
        bx.y + bx.h - 28 * DIP,
        bx.x + bx.w - SHEET_PAD,
        bx.y + bx.h - 6 * DIP,
    );
    paint::put(
        v,
        Mark::Text(
            text::owned("press any key to dismiss"),
            Face::Ui,
            at,
            tones::tint(Tone::TabText, 550),
        ),
    );
    assert(paint::drawing(v@) =~= before + foot_marks(bx@));
}

proof fn lemma_in_turn(
    before: Seq<Drawn>,
    a: Seq<Drawn>,
    b: Seq<Drawn>,
    c: Seq<Drawn>,
    d: Seq<Drawn>,
)
    ensures
        before + a + b + c + d == before + (a + b + c + d),
{
    assert(before + a + b + c + d =~= before + (a + b + c + d));
}

/// Draw the list of shortcuts over a window of a size. `binds` are the user's
/// own bindings, `passthrough` the chords released to the shell.
pub fn put_sheet(
    v: &mut Vec<Mark>,
    width: i64,
    height: i64,
    binds: &[String],
    passthrough: &[String],
)
    requires
        0 <= width <= pane_tree::MAX_EXTENT,
        0 <= height <= pane_tree::MAX_EXTENT,
        binds@.len() <= MAX_BINDS,
    ensures
        paint::drawing(final(v)@) == paint::drawing(old(v)@) + sheet_marks(
            width as int,
            height as int,
            binds@,
            passthrough@,
        ),
{
    let ghost before = paint::drawing(v@);
    let (left, right) = sheet_columns(binds, passthrough);
    proof {
        lemma_blocks_fit(binds@, passthrough@);
    }
    let bx = place_list(width, height, &left, &right);
    put_head(v, width, height, &bx);
    put_column(v, &left, bx.x + SHEET_PAD, bx.y + 44 * DIP);
    put_column(v, &right, bx.x + 2 * SHEET_PAD + COL_W, bx.y + 44 * DIP);
    put_foot(v, &bx);
    proof {
        let l = left_blocks(binds@, passthrough@);
        let r = right_blocks(passthrough@);
        assert(l.len() == left@.len() && r.len() == right@.len());
        lemma_in_turn(
            before,
            head_marks(width as int, height as int, bx@),
            column_marks(l, bx.x + SHEET_PAD, bx.y + 44 * DIP, l.len() as int),
            column_marks(r, bx.x + 2 * SHEET_PAD + COL_W, bx.y + 44 * DIP, r.len() as int),
            foot_marks(bx@),
        );
    }
}

/// A row that is not released to the shell is listed.
pub proof fn law_bound_rows_listed(
    rows: Seq<(Seq<char>, Seq<char>)>,
    passthrough: Seq<String>,
    i: int,
)
    requires
        0 <= i < rows.len(),
        !cheatsheet::is_released(rows[i].0, passthrough),
    ensures
        bound_rows(rows, passthrough, rows.len() as int).contains(rows[i]),
{
    lemma_listed(rows, passthrough, i, rows.len() as int);
}

proof fn lemma_listed(
    rows: Seq<(Seq<char>, Seq<char>)>,
    p: Seq<String>,
    i: int,
    n: int,
)
    requires
        0 <= i < n <= rows.len(),
        !cheatsheet::is_released(rows[i].0, p),
    ensures
        bound_rows(rows, p, n).contains(rows[i]),
    decreases n,
{
    let b = bound_rows(rows, p, n);
    if n - 1 == i {
        assert(b[b.len() - 1] == rows[i]);
    } else {
        lemma_listed(rows, p, i, n - 1);
        let c = bound_rows(rows, p, n - 1);
        let k = choose|k: int| 0 <= k < c.len() && c[k] == rows[i];
        assert(b[k] == rows[i]);
    }
}

/// Each row of a block shows its keys and, to their right, what they do, 24 units
/// below the row before.
pub proof fn law_sheet_row(v: Seq<(Seq<char>, Seq<char>)>, x: int, y: int, n: int, i: int)
    requires
        0 <= i < n <= v.len(),
    ensures
        ({
            let m = rows_marks(v, x, y, n);
            &&& m.len() == 2 * n
            &&& m[2 * i] matches Drawn::Text(t, _, a, _) && t == v[i].0 && a.x == x && a.w == 168 * 1024
                && a.y == y + 24 * 1024 * i && a.h == 24 * 1024
            &&& m[2 * i + 1] matches Drawn::Text(t, _, a, _) && t == v[i].1 && a.x == x + 176 * 1024
                && a.x + a.w == x + 352 * 1024 && a.y == y + 24 * 1024 * i && a.h == 24 * 1024
        }),
    decreases n,
{
    lemma_rows_count(v, x, y, n - 1);
    lemma_rows_count(v, x, y, n);
    if i < n - 1 {
        law_sheet_row(v, x, y, n - 1, i);
        let m = rows_marks(v, x, y, n);
        let b = rows_marks(v, x, y, n - 1);
        assert(m[2 * i] == b[2 * i] && m[2 * i + 1] == b[2 * i + 1]);
    }
}

proof fn lemma_rows_count(v: Seq<(Seq<char>, Seq<char>)>, x: int, y: int, n: int)
    requires
        0 <= n <= v.len(),
    ensures
        rows_marks(v, x, y, n).len() == 2 * n,
    decreases n,
{
    if n > 0 {
        lemma_rows_count(v, x, y, n - 1);
    }
}

/// The blocks of a column stand one below the other: a block is as tall as its
/// title and its rows, and a gap is left behind it.
pub proof fn law_blocks_in_line(v: Seq<BlockText>, x: int, y: int, n: int)
    requires
        0 < n <= v.len(),
    ensures
        tall(v, n) - tall(v, n - 1) == (40 + 24 * v[n - 1].rows.len()) * 1024,
        tall(v, 0) == 0,
        ({
            let m = column_marks(v, x, y, n);
            let k = column_marks(v, x, y, n - 1).len() as int;
            &&& m.take(k) == column_marks(v, x, y, n - 1)
            &&& m[k] matches Drawn::Text(t, _, a, _) && t == v[n - 1].title && a.x == x && a.y == y
                + tall(v, n - 1) + 4 * 1024 && a.y + a.h == y + tall(v, n - 1) + 30 * 1024
            &&& m.skip(k + 1) == rows_marks(
                v[n - 1].rows,
                x,
                y + tall(v, n - 1) + 30 * 1024,
                v[n - 1].rows.len() as int,
            )
        }),
{
    let m = column_marks(v, x, y, n);
    let b = column_marks(v, x, y, n - 1);
    let k = b.len() as int;
    assert(m.take(k) =~= b);
    assert(m.skip(k + 1) =~= rows_marks(
        v[n - 1].rows,
        x,
        y + tall(v, n - 1) + TITLE_H,
        v[n - 1].rows.len() as int,
    ));
}

/// The list stands in the middle of the window below the bar, and is as tall as
/// the taller of its columns needs.
pub proof fn law_sheet_box(width: int, height: int, content: int)
    requires
        0 <= content,
    ensures
        ({
            let b = sheet_box(width, height, content);
            &&& width - 1 <= 2 * b.x + b.w <= width
            &&& b.w <= width - 24 * 1024
            &&& b.w <= 758 * 1024
            &&& b.h == content + 74 * 1024
            &&& b.y >= 46 * 1024
            &&& height - 38 * 1024 >= b.h + 16 * 1024 ==> height + 38 * 1024 - 1 <= 2 * b.y + b.h
                <= height + 38 * 1024
        }),
{
}

/// The columns of the list stand beside each other in its box, 18 units from its
/// edge and apart, below the heading; the way out is named at the foot.
pub proof fn law_sheet_columns(
    width: int,
    height: int,
    binds: Seq<String>,
    passthrough: Seq<String>,
)
    ensures
        ({
            let v = sheet_marks(width, height, binds, passthrough);
            let left = left_blocks(binds, passthrough);
            let right = right_blocks(passthrough);
            let b = list_box(width, height, left, right);
            let l = column_marks(left, b.x + 18 * 1024, b.y + 44 * 1024, left.len() as int);
            let r = column_marks(right, b.x + 388 * 1024, b.y + 44 * 1024, right.len() as int);
            &&& v.len() == 4 + l.len() + r.len() + 1
            &&& v.subrange(4, 4int + l.len()) == l
            &&& v.subrange(4int + l.len(), 4int + l.len() + r.len()) == r
            &&& v[0] matches Drawn::Fill(a, _) && a.x == 0 && a.y == 0 && a.w == width && a.h == height
            &&& v[1] matches Drawn::Rounded(a, _, _) && a == b
            &&& v.last() matches Drawn::Text(_, _, a, _) && a.y == b.y + b.h - 28 * 1024 && a.y + a.h
                <= b.y + b.h
        }),
{
    let v = sheet_marks(width, height, binds, passthrough);
    let left = left_blocks(binds, passthrough);
    let right = right_blocks(passthrough);
    let b = list_box(width, height, left, right);
    let l = column_marks(left, b.x + 18 * 1024, b.y + 44 * 1024, left.len() as int);
    let r = column_marks(right, b.x + 388 * 1024, b.y + 44 * 1024, right.len() as int);
    assert(v.subrange(4, 4int + l.len()) =~= l);
    assert(v.subrange(4int + l.len(), 4int + l.len() + r.len()) =~= r);
}

/// The user's own bindings are listed, each by its keys, below the built-in ones.
pub proof fn law_own_bindings_are_listed(binds: Seq<String>, passthrough: Seq<String>, i: int)
    requires
        0 <= i < binds.len(),
    ensures
        ({
            let v = left_blocks(binds, passthrough);
            &&& v.len() == 3
            &&& v[2].rows.len() == binds.len()
            &&& v[2].rows[i].0 == binds[i]@
        }),
        left_blocks(Seq::empty(), passthrough).len() == 2,
{
}

/// Nothing that is released to the shell is listed.
pub proof fn law_released_rows_are_not_listed(
    rows: Seq<(Seq<char>, Seq<char>)>,
    passthrough: Seq<String>,
    n: int,
    k: int,
)
    requires
        0 <= n <= rows.len(),
        0 <= k < bound_rows(rows, passthrough, n).len(),
    ensures
        !cheatsheet::is_released(bound_rows(rows, passthrough, n)[k].0, passthrough),
        rows.contains(bound_rows(rows, passthrough, n)[k]),
    decreases n,
{
    if n > 0 {
        let before = bound_rows(rows, passthrough, n - 1);
        if k < before.len() {
            law_released_rows_are_not_listed(rows, passthrough, n - 1, k);
        } else {
            assert(rows.contains(rows[n - 1]));
        }
    }
}

} // verus!
