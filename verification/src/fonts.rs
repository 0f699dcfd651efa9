//! Fonts: which family is used, how large a cell is, and what changes in a
//! window when its fonts are made anew.
use vstd::prelude::*;
use crate::chrome;
use crate::fitting;
use crate::tabs;
use crate::tabs::{CellSize, Tab, TabModel};
use crate::text;
use crate::window;
use crate::window::{Act, Settings, TermWindow, Win};

verus! {

/// Whether a family is among those that are installed.
pub open spec fn is_installed(installed: Seq<String>, family: Seq<char>) -> bool {
    exists|i: int| 0 <= i < installed.len() && (#[trigger] installed[i])@ == family
}

/// The family to use: the one asked for, or else the first that is installed
/// of two others.
pub open spec fn family_of(wanted: Seq<char>, installed: Seq<String>) -> Seq<char> {
    if is_installed(installed, wanted) {
        wanted
    } else if is_installed(installed, "Cascadia Mono"@) {
        "Cascadia Mono"@
    } else {
        "Consolas"@
    }
}

pub fn pick_family(wanted: &str, installed: &Vec<String>) -> (r: String)
    ensures
        r@ == family_of(wanted@, installed@),
{
    if text::in_list(installed, wanted) {
        text::owned(wanted)
    } else if text::in_list(installed, "Cascadia Mono") {
        text::owned("Cascadia Mono")
    } else {
        text::owned("Consolas")
    }
}

/// A measure rounded to whole pixels, one at least.
pub open spec fn whole_pixels(v: int, dpi: u32) -> int {
    let d = if dpi < 48 {
        48
    } else {
        dpi as int
    };
    let px = (2 * v * d + chrome::INCH) / (2 * chrome::INCH);
    (if px < 1 {
        1
    } else {
        px
    }) * chrome::INCH / d
}

/// Largest measure of a glyph.
pub const MAX_GLYPH: i64 = 0x80_0000;

proof fn lemma_pixels(v: int, d: int, n: int)
    requires
        0 <= v <= MAX_GLYPH,
        48 <= d <= 0xffff,
        1 <= n,
        n == 1 || n * 98304 <= v * d + 49152,
    ensures
        1 <= n * 98304 / d <= tabs::MAX_CELL,
{
    let m = n * 98304;
    assert(1 <= m / d) by (nonlinear_arith)
        requires
            98304 <= m,
            48 <= d <= 0xffff,
    ;
    if n == 1 {
        assert(m / d <= 98304) by (nonlinear_arith)
            requires
                m == 98304,
                48 <= d,
        ;
    } else {
        assert(m / d <= v + 49152) by (nonlinear_arith)
            requires
                m <= v * d + 49152,
                48 <= d,
                0 <= v,
        ;
    }
}

fn round_up_to_pixels(v: i64, dpi: u32) -> (r: i64)
    requires
        chrome::dpi_ok(dpi),
        0 <= v <= MAX_GLYPH,
    ensures
        r == whole_pixels(v as int, dpi),
        0 < r <= tabs::MAX_CELL,
{
    let d: i64 = if dpi < 48 {
        48
    } else {
        dpi as i64
    };
    assert(0 <= 2 * v * d <= 0x100_0000 * 0xffff) by (nonlinear_arith)
        requires
            0 <= v <= 0x80_0000,
            48 <= d <= 0xffff,
    ;
    let px: i64 = (2 * v * d + chrome::INCH) / (2 * chrome::INCH);
    let n: i64 = if px < 1 {
        1
    } else {
        px
    };
    proof {
        let m = 2 * v * d + 98304;
        assert(2 * v * d == 2 * (v * d)) by (nonlinear_arith);
        assert(px == m / 196608);
        lemma_pixels(v as int, d as int, n as int);
        assert(0 <= v * d <= 0x80_0000 * 0xffff) by (nonlinear_arith)
            requires
                0 <= v <= 0x80_0000,
                48 <= d <= 0xffff,
        ;
    }
    n * chrome::INCH / d
}

/// The cell for a glyph of a size.
pub fn cell_for(width: i64, height: i64, dpi: u32) -> (r: CellSize)
    requires
        chrome::dpi_ok(dpi),
        0 <= width <= MAX_GLYPH,
        0 <= height <= MAX_GLYPH,
    ensures
        tabs::cell_ok(r),
        r == (CellSize {
            w: whole_pixels(width as int, dpi) as i64,
            h: whole_pixels(height as int, dpi) as i64,
        }),
{
    CellSize { w: round_up_to_pixels(width, dpi), h: round_up_to_pixels(height, dpi) }
}

/// The tab with its own fonts made anew, where it has some.
pub open spec fn tab_refonted(t: TabModel, own: Option<CellSize>) -> TabModel {
    if t.cell is Some {
        TabModel { cell: own, ..t }
    } else {
        t
    }
}

/// The window with its fonts made anew: `cell` for the default ones, if they
/// could be made, `own` for those of each tab.
pub open spec fn refonted(w: Win, cell: Option<CellSize>, own: Seq<Option<CellSize>>) -> Win {
    Win {
        cell: match cell {
            Some(c) => c,
            None => w.cell,
        },
        tabs: Seq::new(w.tabs.len(), |i: int| tab_refonted(w.tabs[i], own[i])),
        ..w
    }
}

/// Cells that text can be set in.
pub open spec fn cells_ok(cell: Option<CellSize>, own: Seq<Option<CellSize>>) -> bool {
    &&& cell matches Some(c) ==> tabs::cell_ok(c)
    &&& forall|i: int|
        0 <= i < own.len() ==> ((#[trigger] own[i]) matches Some(c) ==> tabs::cell_ok(c))
}

/// The window after the settings changed.
pub open spec fn configured(
    w: Win,
    settings: Settings,
    cell: Option<CellSize>,
    own: Seq<Option<CellSize>>,
) -> Win {
    let w1 = refonted(Win { settings, ..w }, cell, own);
    window::did(window::did(fitting::relaid(w1), Act::Invalidate), Act::Title)
}

fn set_own(t: &mut Tab, own: Option<CellSize>)
    requires
        tabs::tab_wf(old(t)@),
        own matches Some(c) ==> tabs::cell_ok(c),
    ensures
        tabs::tab_wf(final(t)@),
        final(t)@ == tab_refonted(old(t)@, own),
{
    if t.cell.is_some() {
        t.cell = own;
    }
}

impl TermWindow {
    /// The fonts have been made anew.
    pub fn fonts_changed(&mut self, cell: Option<CellSize>, own: &Vec<Option<CellSize>>)
        requires
            old(self).wf(),
            own@.len() == old(self)@.tabs.len(),
            cells_ok(cell, own@),
        ensures
            final(self).wf(),
            final(self)@ == refonted(old(self)@, cell, own@),
    {
        let ghost w = self@;
        let n: usize = self.tabs.len();
        let mut i: usize = 0;
        while i < n
            invariant
                i <= n,
                n == w.tabs.len(),
                own@.len() == n,
                cells_ok(cell, own@),
                w == old(self)@,
                self.wf(),
                self@.tabs.len() == n,
                self@ == (Win { tabs: self@.tabs, ..w }),
                forall|k: int|
                    0 <= k < n ==> #[trigger] self@.tabs[k] == if k < i {
                        tab_refonted(w.tabs[k], own@[k])
                    } else {
                        w.tabs[k]
                    },
            decreases n - i,
        {
            let ghost before = *self;
            assert(self@.tabs[i as int] == self.tabs@[i as int]@);
            assert(own@[i as int] matches Some(c) ==> tabs::cell_ok(c));
            set_own(&mut self.tabs[i], own[i]);
            proof {
                self.lemma_one_tab(before, i as int);
            }
            i += 1;
        }
        if let Some(c) = cell {
            self.cell = c;
        }
        assert(self@ =~= refonted(w, cell, own@));
    }

    /// The settings have changed.
    pub fn apply_config(
        &mut self,
        settings: Settings,
        cell: Option<CellSize>,
        own: &Vec<Option<CellSize>>,
    )
        requires
            old(self).wf(),
            own@.len() == old(self)@.tabs.len(),
            cells_ok(cell, own@),
        ensures
            final(self).wf(),
            final(self)@ == configured(old(self)@, settings, cell, own@),
    {
        self.settings = settings;
        self.fonts_changed(cell, own);
        self.relayout();
        self.act(Act::Invalidate);
        self.act(Act::Title);
    }
}

/// What the window is called: the title of its active tab, and the name of the
/// program.
pub fn window_title(title: &str) -> (r: String)
    ensures
        r@ == title@ + " \u{2014} baduhan"@,
{
    let mut r = text::owned(title);
    text::push_text(&mut r, " \u{2014} baduhan");
    r
}

/// A cell is never smaller than a pixel.
pub proof fn law_cell_is_a_pixel(v: int, dpi: u32)
    requires
        chrome::dpi_ok(dpi),
        dpi >= 48,
        0 <= v,
    ensures
        whole_pixels(v, dpi) >= chrome::length_of(1, dpi),
{
    let d = dpi as int;
    let px = (2 * v * d + chrome::INCH) / (2 * chrome::INCH);
    let n = if px < 1 {
        1
    } else {
        px
    };
    let one: int = 98304;
    assert(n * one / d >= 1 * one / d) by (nonlinear_arith)
        requires
            1 <= n,
            48 <= d,
            one == 98304,
    ;
}

/// The font asked for is used where it is installed. Where it is not, Cascadia
/// Mono takes its place, and Consolas where that is missing too.
pub proof fn law_family(wanted: Seq<char>, installed: Seq<String>, i: int)
    requires
        0 <= i < installed.len(),
    ensures
        installed[i]@ == wanted ==> family_of(wanted, installed) == wanted,
        !is_installed(installed, wanted) && installed[i]@ == "Cascadia Mono"@ ==> family_of(
            wanted,
            installed,
        ) == "Cascadia Mono"@,
        (forall|j: int|
            0 <= j < installed.len() ==> (#[trigger] installed[j])@ != wanted && installed[j]@
                != "Cascadia Mono"@) ==> family_of(wanted, installed) == "Consolas"@,
{
}

/// New settings reach every tab: those with a font of their own get its new
/// cells, the others go by those of the window, which stay where none could be
/// made.
pub proof fn law_settings_reach_tabs(
    w: Win,
    settings: Settings,
    cell: Option<CellSize>,
    own: Seq<Option<CellSize>>,
    i: int,
)
    requires
        0 <= i < w.tabs.len(),
    ensures
        ({
            let r = refonted(Win { settings, ..w }, cell, own);
            &&& r.settings == settings
            &&& r.tabs.len() == w.tabs.len()
            &&& cell matches Some(c) ==> r.cell == c
            &&& cell is None ==> r.cell == w.cell
            &&& w.tabs[i].cell is Some ==> r.tabs[i].cell == own[i]
            &&& w.tabs[i].cell is None ==> r.tabs[i].cell is None
            &&& r.tabs[i].root == w.tabs[i].root
            &&& r.tabs[i].active == w.tabs[i].active
            &&& r.tabs[i].panes == w.tabs[i].panes
        }),
{
}

} // verus!
