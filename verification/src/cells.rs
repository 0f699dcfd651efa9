//! The cells of a terminal, gathered for drawing: backgrounds, runs of text in
//! one style, and characters that are drawn as geometry.
use vstd::prelude::*;
use alacritty_terminal::index::{Column, Line, Point};
use alacritty_terminal::selection::SelectionRange;
use alacritty_terminal::term::cell::Flags;
use crate::decor;
use crate::paint::Face;
use crate::palette;
use crate::palette::{Color, Colors, Rgb, Scheme};
use crate::text;

verus! {

pub const INVERSE: u16 = 0x1;

pub const BOLD: u16 = 0x2;

pub const ITALIC: u16 = 0x4;

pub const UNDERLINE: u16 = 0x8;

pub const WIDE_CHAR: u16 = 0x20;

pub const DIM: u16 = 0x80;

pub const STRIKEOUT: u16 = 0x200;

pub const DOUBLE_UNDERLINE: u16 = 0x800;

pub const UNDERCURL: u16 = 0x1000;

pub const DOTTED_UNDERLINE: u16 = 0x2000;

pub const DASHED_UNDERLINE: u16 = 0x4000;

/// Either half of a wide character that shows nothing of its own.
pub const SPACERS: u16 = 0x440;

/// All kinds of underline, and the line through the text.
pub const LINES: u16 = 0x7a08;

/// What tells one run of text from another.
pub const STYLE: u16 = 0x7a0e;

/// Whether all bits of `flag` are on.
pub open spec fn flag_has(bits: u16, flag: u16) -> bool {
    bits & flag == flag
}

/// Whether some bit of `flag` is on.
pub open spec fn flag_meets(bits: u16, flag: u16) -> bool {
    bits & flag != 0
}

/// `Flags::contains` of alacritty_terminal's cells, on the bits of two sets:
/// all bits of the second are on in the first.
#[verifier::external_body]
pub(crate) fn contains(bits: u16, flag: u16) -> (r: bool)
    ensures
        r == flag_has(bits, flag),
{
    Flags::from_bits_retain(bits).contains(Flags::from_bits_retain(flag))
}

/// `Flags::intersects` of alacritty_terminal's cells, on the bits of two sets:
/// some bit is on in both.
#[verifier::external_body]
pub(crate) fn intersects(bits: u16, flag: u16) -> (r: bool)
    ensures
        r == flag_meets(bits, flag),
{
    Flags::from_bits_retain(bits).intersects(Flags::from_bits_retain(flag))
}

/// `point_to_viewport` of alacritty_terminal: the row of the display that shows
/// a line when the display is scrolled up by `offset`, and the same column;
/// nothing for a line above the display.
#[verifier::external_body]
pub(crate) fn viewport(offset: i32, line: i32, col: usize) -> (r: Option<(usize, usize)>)
    requires
        0 <= offset,
        line + offset <= i32::MAX,
    ensures
        r == (if line + offset >= 0 {
            Some(((line + offset) as usize, col))
        } else {
            None
        }),
{
    alacritty_terminal::term::point_to_viewport(
        offset as usize,
        Point::new(Line(line), Column(col)),
    ).map(|p| (p.line, p.column.0))
}

/// A selection: its first and its last cell, and whether it is a block.
#[derive(Clone, Copy, PartialEq, Eq, Debug, Structural)]
pub struct Selected {
    pub start_line: i32,
    pub start_col: usize,
    pub end_line: i32,
    pub end_col: usize,
    pub block: bool,
}

/// Whether a cell is selected.
pub open spec fn selects(s: Selected, line: i32, col: usize) -> bool {
    &&& s.start_line <= line <= s.end_line
    &&& s.start_col <= col || (s.start_line != line && !s.block)
    &&& s.end_col >= col || (s.end_line != line && !s.block)
}

/// `SelectionRange::contains` of alacritty_terminal: a cell is selected between
/// the first and the last line, from the first column on in the first line and
/// up to the last column in the last; in a block, between the columns in every
/// line.
#[verifier::external_body]
pub(crate) fn in_selection(s: &Selected, line: i32, col: usize) -> (r: bool)
    ensures
        r == selects(*s, line, col),
{
    let range = SelectionRange {
        start: Point::new(Line(s.start_line), Column(s.start_col)),
        end: Point::new(Line(s.end_line), Column(s.end_col)),
        is_block: s.block,
    };
    range.contains(Point::new(Line(line), Column(col)))
}

/// A cell of the grid.
pub struct GridCell {
    pub line: i32,
    pub col: usize,
    pub c: char,
    /// Characters without width put on top of it, where it can hold any.
    pub marks: Option<Vec<char>>,
    pub fg: Color,
    pub bg: Color,
    pub underline: Option<Color>,
    pub flags: u16,
}

/// The colors a cell is drawn in.
#[derive(Clone, Copy, PartialEq, Eq, Debug, Structural)]
pub struct Look {
    pub fg: Rgb,
    pub bg: Rgb,
    pub underline: Rgb,
}

/// The colors of a cell: an inverse cell has them exchanged, a dim one is
/// darker; a selected one has them exchanged once more, and where that would
/// show nothing, the scheme's.
pub open spec fn look_of(
    cell: GridCell,
    selected: bool,
    slots: Seq<Option<Rgb>>,
    s: Scheme,
) -> Look {
    let f0 = palette::resolved(cell.fg, slots, s);
    let b0 = palette::resolved(cell.bg, slots, s);
    let (f1, b1) = if flag_has(cell.flags, INVERSE) {
        (b0, f0)
    } else {
        (f0, b0)
    };
    let f2 = if flag_has(cell.flags, DIM) {
        palette::dimmed(f1)
    } else {
        f1
    };
    let (fg, bg) = if selected {
        if f2 == b1 {
            (s.bg, s.fg)
        } else {
            (b1, f2)
        }
    } else {
        (f2, b1)
    };
    Look {
        fg,
        bg,
        underline: match cell.underline {
            Some(c) => palette::resolved(c, slots, s),
            None => fg,
        },
    }
}

fn look(cell: &GridCell, selected: bool, colors: &Colors, s: &Scheme) -> (r: Look)
    requires
        colors.wf(),
    ensures
        r == look_of(*cell, selected, colors.slots@, *s),
{
    let f0 = palette::resolve(cell.fg, colors, s);
    let b0 = palette::resolve(cell.bg, colors, s);
    let (f1, bg) = if contains(cell.flags, INVERSE) {
        (b0, f0)
    } else {
        (f0, b0)
    };
    let fg = if contains(cell.flags, DIM) {
        palette::dim(f1)
    } else {
        f1
    };
    let (fg, bg) = if selected {
        if fg == bg {
            (s.bg, s.fg)
        } else {
            (bg, fg)
        }
    } else {
        (fg, bg)
    };
    let underline = match cell.underline {
        Some(c) => palette::resolve(c, colors, s),
        None => fg,
    };
    Look { fg, bg, underline }
}

/// A selected cell can be read: its text and its background differ, where
/// those of the scheme do.
pub proof fn law_selection_shows(cell: GridCell, slots: Seq<Option<Rgb>>, s: Scheme)
    requires
        s.fg != s.bg,
    ensures
        look_of(cell, true, slots, s).fg != look_of(cell, true, slots, s).bg,
{
}

/// Text in one style, from a cell on.
pub struct Run {
    pub row: usize,
    pub col: usize,
    pub width: usize,
    pub text: String,
    pub fg: Rgb,
    pub underline: Rgb,
    pub flags: u16,
}

/// The run that a `Run` stands for.
#[verifier::ext_equal]
pub struct RunModel {
    pub row: usize,
    pub col: usize,
    pub width: usize,
    pub text: Seq<char>,
    pub fg: Rgb,
    pub underline: Rgb,
    pub flags: u16,
}

impl View for Run {
    type V = RunModel;

    open spec fn view(&self) -> RunModel {
        RunModel {
            row: self.row,
            col: self.col,
            width: self.width,
            text: self.text@,
            fg: self.fg,
            underline: self.underline,
            flags: self.flags,
        }
    }
}

/// A character that is drawn as geometry.
#[derive(Clone, Copy, PartialEq, Eq, Debug, Structural)]
pub struct Decor {
    pub row: usize,
    pub col: usize,
    pub c: char,
    pub fg: Rgb,
}

/// A background that differs from the scheme's.
#[derive(Clone, Copy, PartialEq, Eq, Debug, Structural)]
pub struct Ground {
    pub row: usize,
    pub col: usize,
    pub width: usize,
    pub color: Rgb,
}

/// The cells seen so far, gathered.
pub struct Batch {
    pub grounds: Vec<Ground>,
    pub runs: Vec<Run>,
    pub decors: Vec<Decor>,
    pub cur: Option<Run>,
}

/// The batch that a `Batch` stands for.
#[verifier::ext_equal]
pub struct BatchModel {
    pub grounds: Seq<Ground>,
    pub runs: Seq<RunModel>,
    pub decors: Seq<Decor>,
    pub cur: Option<RunModel>,
}

pub open spec fn runs_of(v: Seq<Run>) -> Seq<RunModel> {
    v.map_values(|r: Run| r@)
}

impl View for Batch {
    type V = BatchModel;

    open spec fn view(&self) -> BatchModel {
        BatchModel {
            grounds: self.grounds@,
            runs: runs_of(self.runs@),
            decors: self.decors@,
            cur: match self.cur {
                Some(r) => Some(r@),
                None => None,
            },
        }
    }
}

/// The batch with its open run closed.
pub open spec fn flushed(b: BatchModel) -> BatchModel {
    match b.cur {
        Some(r) => BatchModel { runs: b.runs.push(r), cur: None, ..b },
        None => b,
    }
}

/// Whether a cell cannot go on with a run: it stands elsewhere or looks
/// different.
pub open spec fn breaks(r: RunModel, row: usize, col: usize, l: Look, style: u16) -> bool {
    ||| r.row != row
    ||| r.col + r.width != col
    ||| r.fg != l.fg
    ||| r.underline != l.underline
    ||| r.flags != style
}

/// How many columns a cell takes.
pub open spec fn columns(flags: u16) -> usize {
    if flag_has(flags, WIDE_CHAR) {
        2
    } else {
        1
    }
}

pub open spec fn marks_of(cell: GridCell) -> Seq<char> {
    match cell.marks {
        Some(m) => m@,
        None => Seq::empty(),
    }
}

/// The batch with one more cell, at a row and column of the display.
pub open spec fn placed_cell(
    b: BatchModel,
    cell: GridCell,
    row: usize,
    col: usize,
    l: Look,
    s: Scheme,
) -> BatchModel {
    let width = columns(cell.flags);
    let style = cell.flags & STYLE;
    let drawable = cell.c != ' ' || cell.marks is Some;
    let b1 = if l.bg != s.bg {
        BatchModel {
            grounds: b.grounds.push(Ground { row, col, width, color: l.bg }),
            ..b
        }
    } else {
        b
    };
    let b2 = match b1.cur {
        Some(r) if breaks(r, row, col, l, style) => flushed(b1),
        _ => b1,
    };
    if drawable && decor::decorates(cell.c) && cell.marks is None {
        let b3 = flushed(b2);
        BatchModel { decors: b3.decors.push(Decor { row, col, c: cell.c, fg: l.fg }), ..b3 }
    } else if drawable {
        let r = match b2.cur {
            Some(r) => r,
            None => RunModel {
                row,
                col,
                width: 0,
                text: Seq::empty(),
                fg: l.fg,
                underline: l.underline,
                flags: style,
            },
        };
        BatchModel {
            cur: Some(
                RunModel {
                    text: r.text.push(cell.c) + marks_of(cell),
                    width: (r.width + width) as usize,
                    ..r
                },
            ),
            ..b2
        }
    } else {
        match b2.cur {
            Some(r) => if !flag_meets(r.flags, LINES) {
                BatchModel {
                    cur: Some(
                        RunModel { text: r.text.push(' '), width: (r.width + 1) as usize, ..r },
                    ),
                    ..b2
                }
            } else {
                flushed(b2)
            },
            None => b2,
        }
    }
}

pub open spec fn is_selected(sel: Option<Selected>, cell: GridCell) -> bool {
    sel matches Some(s) && selects(s, cell.line, cell.col)
}

/// The batch with one more cell of the grid: nothing for a cell above the
/// display, or one that belongs to a wide character beside it.
pub open spec fn with_cell(
    b: BatchModel,
    cell: GridCell,
    offset: int,
    sel: Option<Selected>,
    slots: Seq<Option<Rgb>>,
    s: Scheme,
) -> BatchModel {
    if cell.line + offset < 0 || flag_meets(cell.flags, SPACERS) {
        b
    } else {
        placed_cell(
            b,
            cell,
            (cell.line + offset) as usize,
            cell.col,
            look_of(cell, is_selected(sel, cell), slots, s),
            s,
        )
    }
}

/// The batch of the first `n` cells.
pub open spec fn batched(
    cells: Seq<GridCell>,
    offset: int,
    sel: Option<Selected>,
    slots: Seq<Option<Rgb>>,
    s: Scheme,
    n: int,
) -> BatchModel
    decreases n,
{
    if n <= 0 || n > cells.len() {
        BatchModel {
            grounds: Seq::empty(),
            runs: Seq::empty(),
            decors: Seq::empty(),
            cur: None,
        }
    } else {
        with_cell(
            batched(cells, offset, sel, slots, s, n - 1),
            cells[n - 1],
            offset,
            sel,
            slots,
            s,
        )
    }
}

/// Most columns of a grid.
pub const MAX_COL: usize = 0x4000_0000;

/// A cell that can be shown.
pub open spec fn cell_fits(cell: GridCell, offset: int) -> bool {
    cell.col < MAX_COL && cell.line + offset <= 0x4000_0000
}

pub open spec fn cells_ok(cells: Seq<GridCell>, offset: int) -> bool {
    0 <= offset <= i32::MAX && forall|i: int|
        0 <= i < cells.len() ==> cell_fits(#[trigger] cells[i], offset)
}

/// The columns of a run end within the grid.
pub open spec fn run_fits(r: RunModel) -> bool {
    r.col < MAX_COL && r.col + r.width <= MAX_COL + 2 && r.row <= 0x4000_0000
}

pub open spec fn runs_fit(v: Seq<RunModel>) -> bool {
    forall|i: int| 0 <= i < v.len() ==> run_fits(#[trigger] v[i])
}

pub open spec fn grounds_fit(v: Seq<Ground>) -> bool {
    forall|i: int|
        0 <= i < v.len() ==> (#[trigger] v[i]).col < MAX_COL && v[i].width <= 2 && v[i].row
            <= 0x4000_0000
}

pub open spec fn decors_fit(v: Seq<Decor>) -> bool {
    forall|i: int|
        0 <= i < v.len() ==> (#[trigger] v[i]).col < MAX_COL && v[i].row <= 0x4000_0000
}

pub open spec fn batch_fits(b: BatchModel) -> bool {
    &&& b.cur matches Some(r) ==> run_fits(r)
    &&& runs_fit(b.runs)
    &&& grounds_fit(b.grounds)
    &&& decors_fit(b.decors)
}

impl Batch {
    fn flush(&mut self)
        requires
            batch_fits(old(self)@),
        ensures
            final(self)@ == flushed(old(self)@),
            batch_fits(final(self)@),
    {
        let ghost before = self@;
        let mut cur: Option<Run> = None;
        std::mem::swap(&mut cur, &mut self.cur);
        if let Some(r) = cur {
            self.runs.push(r);
            assert(self@.runs =~= before.runs.push(r@));
        }
        assert(self@ =~= flushed(before));
    }

    fn place(&mut self, cell: &GridCell, row: usize, col: usize, l: Look, s: &Scheme)
        requires
            batch_fits(old(self)@),
            col < MAX_COL,
            row <= 0x4000_0000,
        ensures
            final(self)@ == placed_cell(old(self)@, *cell, row, col, l, *s),
            batch_fits(final(self)@),
    {
        let width: usize = if contains(cell.flags, WIDE_CHAR) {
            2
        } else {
            1
        };
        let style: u16 = cell.flags & STYLE;
        let drawable = cell.c != ' ' || cell.marks.is_some();
        if l.bg != s.bg {
            self.grounds.push(Ground { row, col, width, color: l.bg });
        }
        let broken = match &self.cur {
            Some(r) => r.row != row || r.col + r.width != col || r.fg != l.fg || r.underline
                != l.underline || r.flags != style,
            None => false,
        };
        if broken {
            self.flush();
        }
        let ghost b2 = self@;
        if drawable && decor::is_decor(cell.c) && cell.marks.is_none() {
            self.flush();
            self.decors.push(Decor { row, col, c: cell.c, fg: l.fg });
            return;
        }
        let mut cur: Option<Run> = None;
        std::mem::swap(&mut cur, &mut self.cur);
        if drawable {
            let mut r = match cur {
                Some(r) => r,
                None => Run {
                    row,
                    col,
                    width: 0,
                    text: String::new(),
                    fg: l.fg,
                    underline: l.underline,
                    flags: style,
                },
            };
            let ghost r0 = r@;
            r.text.push(cell.c);
            if let Some(m) = &cell.marks {
                text::push_chars(&mut r.text, m.as_slice());
            }
            assert(r.text@ =~= r0.text.push(cell.c) + marks_of(*cell));
            r.width += width;
            self.cur = Some(r);
        } else if let Some(r) = cur {
            let mut r = r;
            if !intersects(r.flags, LINES) {
                r.text.push(' ');
                r.width += 1;
                self.cur = Some(r);
            } else {
                self.cur = Some(r);
                assert(self@ =~= b2);
                self.flush();
            }
        }
    }
}

/// Gather the cells on show for drawing.
pub fn batch_cells(
    cells: &Vec<GridCell>,
    offset: i32,
    sel: Option<Selected>,
    colors: &Colors,
    s: &Scheme,
) -> (b: Batch)
    requires
        cells_ok(cells@, offset as int),
        colors.wf(),
    ensures
        b@ == flushed(
            batched(cells@, offset as int, sel, colors.slots@, *s, cells@.len() as int),
        ),
        batch_fits(b@),
        b@.cur is None,
{
    let mut b = Batch {
        grounds: Vec::new(),
        runs: Vec::new(),
        decors: Vec::new(),
        cur: None,
    };
    assert(b@.runs =~= Seq::empty());
    let mut i: usize = 0;
    while i < cells.len()
        invariant
            i <= cells@.len(),
            cells_ok(cells@, offset as int),
            colors.wf(),
            b@ == batched(cells@, offset as int, sel, colors.slots@, *s, i as int),
            batch_fits(b@),
        decreases cells@.len() - i,
    {
        let cell = &cells[i];
        assert(cell_fits(cells@[i as int], offset as int));
        if !intersects(cell.flags, SPACERS) {
            if let Some((row, col)) = viewport(offset, cell.line, cell.col) {
                let selected = match &sel {
                    Some(r) => in_selection(r, cell.line, cell.col),
                    None => false,
                };
                let l = look(cell, selected, colors, s);
                b.place(cell, row, col, l, s);
            }
        }
        i += 1;
    }
    b.flush();
    b
}

/// The font of a run.
pub open spec fn face_of(flags: u16) -> Face {
    let bold = flag_has(flags, BOLD);
    let italic = flag_has(flags, ITALIC);
    if bold && italic {
        Face::BoldItalic
    } else if bold {
        Face::Bold
    } else if italic {
        Face::Italic
    } else {
        Face::Regular
    }
}

pub fn pick(flags: u16) -> (r: Face)
    ensures
        r == face_of(flags),
{
    match (contains(flags, BOLD), contains(flags, ITALIC)) {
        (true, true) => Face::BoldItalic,
        (true, false) => Face::Bold,
        (false, true) => Face::Italic,
        (false, false) => Face::Regular,
    }
}

/// Whether `q` is the run `r`, perhaps with more behind it.
spec fn goes_on(r: RunModel, q: RunModel) -> bool {
    &&& q.row == r.row && q.col == r.col && q.fg == r.fg && q.underline == r.underline && q.flags
        == r.flags
    &&& q.width >= r.width
    &&& q.text.len() >= r.text.len()
    &&& q.text.take(r.text.len() as int) == r.text
}

/// One more cell takes nothing of what was gathered away: runs only grow.
proof fn lemma_cell_keeps(
    b: BatchModel,
    cell: GridCell,
    offset: int,
    sel: Option<Selected>,
    slots: Seq<Option<Rgb>>,
    s: Scheme,
    q: RunModel,
    i: int,
)
    requires
        cell_fits(cell, offset),
        0 <= i < flushed(b).runs.len(),
        goes_on(q, flushed(b).runs[i]),
    ensures
        ({
            let c = with_cell(b, cell, offset, sel, slots, s);
            &&& i < flushed(c).runs.len()
            &&& goes_on(q, flushed(c).runs[i])
            &&& forall|g: Ground| b.grounds.contains(g) ==> c.grounds.contains(g)
            &&& forall|d: Decor| b.decors.contains(d) ==> c.decors.contains(d)
        }),
{
    let c = with_cell(b, cell, offset, sel, slots, s);
    lemma_marks_keep(b, cell, offset, sel, slots, s);
    let r = flushed(b).runs[i];
    if i < b.runs.len() {
        assert(flushed(c).runs[i] == r);
    } else {
        let e = flushed(c).runs[i];
        assert(e.text.take(r.text.len() as int) =~= r.text);
        assert(e.text.take(q.text.len() as int) =~= r.text.take(q.text.len() as int));
    }
}

proof fn lemma_marks_keep(
    b: BatchModel,
    cell: GridCell,
    offset: int,
    sel: Option<Selected>,
    slots: Seq<Option<Rgb>>,
    s: Scheme,
)
    ensures
        ({
            let c = with_cell(b, cell, offset, sel, slots, s);
            &&& forall|g: Ground| b.grounds.contains(g) ==> c.grounds.contains(g)
            &&& forall|d: Decor| b.decors.contains(d) ==> c.decors.contains(d)
        }),
{
    let c = with_cell(b, cell, offset, sel, slots, s);
    assert forall|g: Ground| b.grounds.contains(g) implies c.grounds.contains(g) by {
        let k = choose|k: int| 0 <= k < b.grounds.len() && b.grounds[k] == g;
        assert(c.grounds[k] == g);
    }
    assert forall|d: Decor| b.decors.contains(d) implies c.decors.contains(d) by {
        let k = choose|k: int| 0 <= k < b.decors.len() && b.decors[k] == d;
        assert(c.decors[k] == d);
    }
}

proof fn lemma_rest_keeps(
    cells: Seq<GridCell>,
    offset: int,
    sel: Option<Selected>,
    slots: Seq<Option<Rgb>>,
    s: Scheme,
    m: int,
    n: int,
    q: RunModel,
    i: int,
)
    requires
        cells_ok(cells, offset),
        0 <= m <= n <= cells.len(),
    ensures
        ({
            let b = batched(cells, offset, sel, slots, s, m);
            let c = batched(cells, offset, sel, slots, s, n);
            &&& 0 <= i < flushed(b).runs.len() && goes_on(q, flushed(b).runs[i]) ==> i < flushed(
                c,
            ).runs.len() && goes_on(q, flushed(c).runs[i])
            &&& forall|g: Ground| b.grounds.contains(g) ==> c.grounds.contains(g)
            &&& forall|d: Decor| b.decors.contains(d) ==> c.decors.contains(d)
        }),
    decreases n,
{
    if m < n {
        lemma_rest_keeps(cells, offset, sel, slots, s, m, n - 1, q, i);
        let b = batched(cells, offset, sel, slots, s, n - 1);
        assert(cell_fits(cells[n - 1], offset));
        lemma_marks_keep(b, cells[n - 1], offset, sel, slots, s);
        if 0 <= i < flushed(b).runs.len() && goes_on(q, flushed(b).runs[i]) {
            lemma_cell_keeps(b, cells[n - 1], offset, sel, slots, s, q, i);
        }
    }
}

/// Whether no cell of the grid takes more than a column or holds marks.
pub open spec fn all_narrow(cells: Seq<GridCell>) -> bool {
    forall|i: int|
        0 <= i < cells.len() ==> (#[trigger] cells[i]).marks is None && cells[i].flags & 0x20 == 0
}

proof fn lemma_tight(
    cells: Seq<GridCell>,
    offset: int,
    sel: Option<Selected>,
    slots: Seq<Option<Rgb>>,
    s: Scheme,
    n: int,
)
    requires
        cells_ok(cells, offset),
        all_narrow(cells),
        0 <= n <= cells.len(),
    ensures
        batched(cells, offset, sel, slots, s, n).cur matches Some(r) ==> r.text.len() == r.width,
        forall|i: int|
            0 <= i < batched(cells, offset, sel, slots, s, n).runs.len() ==> (
            #[trigger] batched(cells, offset, sel, slots, s, n).runs[i]).text.len() == batched(
                cells,
                offset,
                sel,
                slots,
                s,
                n,
            ).runs[i].width,
    decreases n,
{
    if n > 0 {
        lemma_tight(cells, offset, sel, slots, s, n - 1);
        let f = cells[n - 1].flags;
        assert(cell_fits(cells[n - 1], offset));
        assert(f & 0x20 == 0 ==> f & 0x20 != 0x20) by (bit_vector);
        assert(marks_of(cells[n - 1]) =~= Seq::empty());
    }
}

/// In a grid of narrow cells the text of a run has a character for each column.
pub proof fn lemma_narrow_text(
    cells: Seq<GridCell>,
    offset: int,
    sel: Option<Selected>,
    slots: Seq<Option<Rgb>>,
    s: Scheme,
    i: int,
)
    requires
        cells_ok(cells, offset),
        all_narrow(cells),
        0 <= i < flushed(batched(cells, offset, sel, slots, s, cells.len() as int)).runs.len(),
    ensures
        ({
            let r = flushed(batched(cells, offset, sel, slots, s, cells.len() as int)).runs[i];
            r.text.len() == r.width
        }),
{
    lemma_tight(cells, offset, sel, slots, s, cells.len() as int);
}

/// Every character on show is drawn in its place: a cell that holds one, and is
/// not the other half of a wide one, lies in a run of its row, which begins at
/// or before its column and reaches over all of it, in the cell's color and
/// style; in a grid of narrow cells the character stands in the run's text as
/// many places from its start as it stands columns from it.
pub proof fn law_text_is_placed(
    cells: Seq<GridCell>,
    offset: int,
    sel: Option<Selected>,
    slots: Seq<Option<Rgb>>,
    s: Scheme,
    k: int,
)
    requires
        cells_ok(cells, offset),
        0 <= k < cells.len(),
        cells[k].line + offset >= 0,
        cells[k].flags & 0x440 == 0,
        cells[k].c != ' ',
        !decor::decorates(cells[k].c),
    ensures
        ({
            let cell = cells[k];
            let look = look_of(cell, is_selected(sel, cell), slots, s);
            let b = flushed(batched(cells, offset, sel, slots, s, cells.len() as int));
            exists|i: int|
                0 <= i < b.runs.len() && {
                    let r = #[trigger] b.runs[i];
                    &&& r.row == cell.line + offset
                    &&& r.col <= cell.col < r.col + r.width
                    &&& cell.flags & 0x20 == 0x20 ==> cell.col + 1 < r.col + r.width
                    &&& r.fg == look.fg
                    &&& r.underline == look.underline
                    &&& r.flags == cell.flags & 0x7a0e
                    &&& r.text.contains(cell.c)
                    &&& all_narrow(cells) ==> r.text[cell.col - r.col] == cell.c
                }
        }),
{
    let cell = cells[k];
    let n = cells.len() as int;
    assert(cell_fits(cell, offset));
    let b0 = batched(cells, offset, sel, slots, s, k);
    let b1 = batched(cells, offset, sel, slots, s, k + 1);
    let q = b1.cur->0;
    let at = q.text.len() - 1 - marks_of(cell).len();
    assert(b1.cur is Some);
    assert(q.text[at] == cell.c);
    let i = b1.runs.len() as int;
    assert(flushed(b1).runs[i] == q);
    assert(q.text.take(q.text.len() as int) =~= q.text);
    assert(goes_on(q, flushed(b1).runs[i]));
    lemma_rest_keeps(cells, offset, sel, slots, s, k + 1, n, q, i);
    let b = flushed(batched(cells, offset, sel, slots, s, n));
    let r = b.runs[i];
    assert(r.text[at] == r.text.take(q.text.len() as int)[at]);
    if all_narrow(cells) {
        lemma_tight(cells, offset, sel, slots, s, k + 1);
        let f = cell.flags;
        assert(f & 0x20 == 0 ==> f & 0x20 != 0x20) by (bit_vector);
        assert(marks_of(cell) =~= Seq::empty());
    }
}

/// Every background on show that differs from the scheme's is drawn, in its row
/// and column and as wide as its cell, and every character of lines and blocks
/// is drawn as geometry in its cell.
pub proof fn law_grounds_and_decors_are_placed(
    cells: Seq<GridCell>,
    offset: int,
    sel: Option<Selected>,
    slots: Seq<Option<Rgb>>,
    s: Scheme,
    k: int,
)
    requires
        cells_ok(cells, offset),
        0 <= k < cells.len(),
        cells[k].line + offset >= 0,
        cells[k].flags & 0x440 == 0,
    ensures
        ({
            let cell = cells[k];
            let look = look_of(cell, is_selected(sel, cell), slots, s);
            let b = flushed(batched(cells, offset, sel, slots, s, cells.len() as int));
            let row = (cell.line + offset) as usize;
            &&& look.bg != s.bg ==> b.grounds.contains(
                (Ground {
                    row,
                    col: cell.col,
                    width: if cell.flags & 0x20 == 0x20 {
                        2
                    } else {
                        1
                    },
                    color: look.bg,
                }),
            )
            &&& cell.c != ' ' && decor::decorates(cell.c) && cell.marks is None
                ==> b.decors.contains((Decor { row, col: cell.col, c: cell.c, fg: look.fg }))
        }),
{
    let cell = cells[k];
    let n = cells.len() as int;
    let look = look_of(cell, is_selected(sel, cell), slots, s);
    let row = (cell.line + offset) as usize;
    let b1 = batched(cells, offset, sel, slots, s, k + 1);
    let g = Ground { row, col: cell.col, width: columns(cell.flags), color: look.bg };
    let d = Decor { row, col: cell.col, c: cell.c, fg: look.fg };
    if look.bg != s.bg {
        assert(b1.grounds.last() == g);
        assert(b1.grounds.contains(g));
    }
    if cell.c != ' ' && decor::decorates(cell.c) && cell.marks is None {
        assert(b1.decors.last() == d);
        assert(b1.decors.contains(d));
    }
    lemma_rest_keeps(cells, offset, sel, slots, s, k + 1, n, arbitrary_run(), -1);
}

spec fn arbitrary_run() -> RunModel {
    RunModel {
        row: 0,
        col: 0,
        width: 0,
        text: Seq::empty(),
        fg: Rgb { r: 0, g: 0, b: 0 },
        underline: Rgb { r: 0, g: 0, b: 0 },
        flags: 0,
    }
}

/// Nothing is drawn where nothing is: each background and each shape is that of
/// a cell on show.
pub proof fn law_nothing_else_is_drawn(
    cells: Seq<GridCell>,
    offset: int,
    sel: Option<Selected>,
    slots: Seq<Option<Rgb>>,
    s: Scheme,
    n: int,
)
    requires
        cells_ok(cells, offset),
        0 <= n <= cells.len(),
    ensures
        ({
            let b = batched(cells, offset, sel, slots, s, n);
            &&& forall|i: int|
                0 <= i < b.grounds.len() ==> exists|k: int|
                    #![trigger cells[k]]
                    0 <= k < n && (#[trigger] b.grounds[i]).row == cells[k].line + offset
                        && b.grounds[i].col == cells[k].col && b.grounds[i].color != s.bg
            &&& forall|i: int|
                0 <= i < b.decors.len() ==> exists|k: int|
                    #![trigger cells[k]]
                    0 <= k < n && (#[trigger] b.decors[i]).row == cells[k].line + offset
                        && b.decors[i].col == cells[k].col && b.decors[i].c == cells[k].c
        }),
    decreases n,
{
    if n > 0 {
        law_nothing_else_is_drawn(cells, offset, sel, slots, s, n - 1);
        let b = batched(cells, offset, sel, slots, s, n - 1);
        let c = batched(cells, offset, sel, slots, s, n);
        let here = cells[n - 1];
        assert forall|i: int| 0 <= i < c.grounds.len() implies exists|k: int|
            #![trigger cells[k]]
            0 <= k < n && (#[trigger] c.grounds[i]).row == cells[k].line + offset && c.grounds[i].col
                == cells[k].col && c.grounds[i].color != s.bg by {
            if i < b.grounds.len() {
                assert(c.grounds[i] == b.grounds[i]);
                let k = choose|k: int|
                    #![trigger cells[k]]
                    0 <= k < n - 1 && b.grounds[i].row == cells[k].line + offset
                        && b.grounds[i].col == cells[k].col && b.grounds[i].color != s.bg;
                assert(cells[k] == cells[k]);
            } else {
                assert(here == cells[n - 1]);
            }
        }
        assert forall|i: int| 0 <= i < c.decors.len() implies exists|k: int|
            #![trigger cells[k]]
            0 <= k < n && (#[trigger] c.decors[i]).row == cells[k].line + offset && c.decors[i].col
                == cells[k].col && c.decors[i].c == cells[k].c by {
            if i < b.decors.len() {
                assert(c.decors[i] == b.decors[i]);
                let k = choose|k: int|
                    #![trigger cells[k]]
                    0 <= k < n - 1 && b.decors[i].row == cells[k].line + offset && b.decors[i].col
                        == cells[k].col && b.decors[i].c == cells[k].c;
                assert(cells[k] == cells[k]);
            } else {
                assert(here == cells[n - 1]);
            }
        }
    }
}

/// A plain cell shows its own colors; an inverse one has text and background
/// exchanged, and so has a selected one; a dim one has its text darker and its
/// background as it is. Lines below a text are in the color that the cell asks
/// for, or else in that of its text.
pub proof fn law_looks(cell: GridCell, slots: Seq<Option<Rgb>>, s: Scheme)
    ensures
        ({
            let f = palette::resolved(cell.fg, slots, s);
            let b = palette::resolved(cell.bg, slots, s);
            let plain = look_of(cell, false, slots, s);
            let picked = look_of(cell, true, slots, s);
            &&& cell.flags & 0x81 == 0 ==> plain.fg == f && plain.bg == b
            &&& cell.flags & 0x81 == 1 ==> plain.fg == b && plain.bg == f
            &&& cell.flags & 0x81 == 0x80 ==> plain.fg == palette::dimmed(f) && plain.bg == b
            &&& cell.flags & 0x81 == 0x81 ==> plain.fg == palette::dimmed(b) && plain.bg == f
            &&& plain.fg != plain.bg ==> picked.fg == plain.bg && picked.bg == plain.fg
            &&& plain.fg == plain.bg ==> picked.fg == s.bg && picked.bg == s.fg
            &&& cell.underline is None ==> plain.underline == plain.fg && picked.underline
                == picked.fg
            &&& cell.underline matches Some(c) ==> plain.underline == palette::resolved(c, slots, s)
                && picked.underline == plain.underline
        }),
{
    let x = cell.flags;
    assert((x & 0x81 == 0 ==> x & 1 != 1 && x & 0x80 != 0x80) && (x & 0x81 == 1 ==> x & 1 == 1 && x
        & 0x80 != 0x80) && (x & 0x81 == 0x80 ==> x & 1 != 1 && x & 0x80 == 0x80) && (x & 0x81
        == 0x81 ==> x & 1 == 1 && x & 0x80 == 0x80)) by (bit_vector);
}

/// The font follows the bits for bold and italic.
pub proof fn law_faces(flags: u16)
    ensures
        flags & 0x6 == 0 ==> face_of(flags) == Face::Regular,
        flags & 0x6 == 0x2 ==> face_of(flags) == Face::Bold,
        flags & 0x6 == 0x4 ==> face_of(flags) == Face::Italic,
        flags & 0x6 == 0x6 ==> face_of(flags) == Face::BoldItalic,
{
    assert((flags & 6 == 0 ==> flags & 2 != 2 && flags & 4 != 4) && (flags & 6 == 2 ==> flags & 2
        == 2 && flags & 4 != 4) && (flags & 6 == 4 ==> flags & 2 != 2 && flags & 4 == 4) && (flags
        & 6 == 6 ==> flags & 2 == 2 && flags & 4 == 4)) by (bit_vector);
}

} // verus!
