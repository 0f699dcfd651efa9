//! Fitting the panes of a window's active tab to the window, and finding what
//! is under a point of it.
use vstd::prelude::*;
use crate::chrome;
use crate::chrome::Bar;
use crate::pane_tree;
use crate::pane_tree::{Area, Gutter, Layout, Node, PaneId, RectF, DIP};
use crate::tabs;
use crate::tabs::{CellSize, Pane, PaneKind, Tab, TabModel};
use crate::term_pane::TermPane;
use crate::window;
use crate::window::{Act, PixelRect, TermWindow, Win};

verus! {

/// The panes on show in the active tab, and where.
pub open spec fn panes_on_show(w: Win) -> Seq<(PaneId, Area)> {
    match window::current(w) {
        Some(t) => pane_tree::layout_panes(t.root, window::pane_area(w), t.zoomed),
        None => Seq::empty(),
    }
}

/// The dividers on show in the active tab.
pub open spec fn gutters_on_show(w: Win) -> Seq<Gutter> {
    match window::current(w) {
        Some(t) => pane_tree::layout_gutters(t.root, window::pane_area(w), t.zoomed),
        None => Seq::empty(),
    }
}

/// Whether title bars are shown in the active tab.
pub open spec fn titled(w: Win) -> bool {
    match window::current(w) {
        Some(t) => window::is_multi(t),
        None => false,
    }
}

/// How many cells fit an extent, `least` at least.
pub open spec fn cells_fit(extent: int, cell: int, least: int) -> int {
    let inner = extent - 2 * chrome::PANE_PAD;
    let n = if inner < 0 {
        0
    } else {
        inner / cell
    };
    let m = if n > 0xffff {
        0xffff
    } else {
        n
    };
    if m < least {
        least
    } else {
        m
    }
}

/// The page of a browser pane, below its toolbar, in pixels.
pub open spec fn page_place(c: Area, dpi: u32) -> PixelRect {
    PixelRect {
        left: chrome::pixels_of(c.x, dpi) as i32,
        top: chrome::pixels_of(c.y + chrome::TOOLBAR_H, dpi) as i32,
        right: chrome::pixels_of(c.x + c.w, dpi) as i32,
        bottom: chrome::pixels_of(c.y + c.h, dpi) as i32,
    }
}

/// A rectangle in pixels.
pub open spec fn pixel_place(c: Area, dpi: u32) -> PixelRect {
    PixelRect {
        left: chrome::pixels_of(c.x, dpi) as i32,
        top: chrome::pixels_of(c.y, dpi) as i32,
        right: chrome::pixels_of(c.x + c.w, dpi) as i32,
        bottom: chrome::pixels_of(c.y + c.h, dpi) as i32,
    }
}

/// The URL bar of a browser pane.
pub open spec fn edit_area(c: Area) -> Area {
    let w = c.w - 5 * chrome::BTN_W - 12 * DIP;
    Area {
        x: c.x + 3 * chrome::BTN_W + 6 * DIP,
        y: c.y + 5 * DIP,
        w: if w < 40 * DIP {
            40 * DIP as int
        } else {
            w
        },
        h: chrome::TOOLBAR_H - 10 * DIP,
    }
}

/// The window with one pane of its active tab fitted to an area: a terminal
/// gets the cells that fit, where it has not got them; a page gets its place.
pub open spec fn pane_fitted(w: Win, id: PaneId, r: Area, multi: bool) -> Win {
    let t = window::current(w)->0;
    let c = chrome::content_area(r, multi);
    let cell = window::cell_of(w);
    match t.panes[id].kind {
        PaneKind::Term(p) => {
            let cols = cells_fit(c.w, cell.w as int, 2) as u16;
            let rows = cells_fit(c.h, cell.h as int, 1) as u16;
            if p.cols == cols && p.rows == rows {
                w
            } else {
                let p1 = TermPane {
                    cols,
                    rows,
                    cell_w: (cell.w / DIP) as u16,
                    cell_h: (cell.h / DIP) as u16,
                    ..p
                };
                window::did(
                    window::with_current(
                        w,
                        TabModel {
                            panes: t.panes.insert(id, Pane { id, kind: PaneKind::Term(p1) }),
                            ..t
                        },
                    ),
                    Act::Resize { pane: id, cols, rows },
                )
            }
        },
        PaneKind::Browser(_) => window::did(
            w,
            Act::Place {
                pane: id,
                page: page_place(c, w.frame.dpi),
                edit: pixel_place(edit_area(c), w.frame.dpi),
            },
        ),
    }
}

/// The window with the first `n` of the placed panes fitted.
pub open spec fn fitted(w: Win, panes: Seq<(PaneId, Area)>, multi: bool, n: int) -> Win
    decreases n,
{
    if n <= 0 || n > panes.len() {
        w
    } else {
        pane_fitted(fitted(w, panes, multi, n - 1), panes[n - 1].0, panes[n - 1].1, multi)
    }
}

/// The window with all panes on show fitted to it.
pub open spec fn relaid(w: Win) -> Win {
    let panes = panes_on_show(w);
    fitted(w, panes, titled(w), panes.len() as int)
}

fn fit_cells(extent: i64, cell: i64, least: u16) -> (r: u16)
    requires
        0 <= extent <= pane_tree::MAX_EXTENT,
        0 < cell,
    ensures
        r == cells_fit(extent as int, cell as int, least as int),
{
    let inner: i64 = extent - 2 * chrome::PANE_PAD;
    let n: i64 = if inner < 0 {
        0
    } else {
        inner / cell
    };
    let m: u16 = if n > 0xffff {
        0xffff
    } else {
        n as u16
    };
    if m < least {
        least
    } else {
        m
    }
}

/// Every pane that a layout shows is a pane of the tree.
pub proof fn lemma_shown(t: TabModel, a: Area, i: int)
    requires
        tabs::tab_wf(t),
        0 <= i < pane_tree::layout_panes(t.root, a, t.zoomed).len(),
    ensures
        t.panes.dom().contains(pane_tree::layout_panes(t.root, a, t.zoomed)[i].0),
{
    if !pane_tree::is_zoomed(t.root, t.zoomed) {
        pane_tree::law_layout_order(t.root, a);
        let panes = pane_tree::panes_of(t.root, a);
        assert(pane_tree::names(panes)[i] == panes[i].0);
        assert(pane_tree::leaves(t.root).contains(panes[i].0));
    }
}

/// Title bars are shown exactly where several panes are.
pub proof fn law_titles_with_several(w: Win)
    requires
        window::win_wf(w),
    ensures
        titled(w) <==> panes_on_show(w).len() > 1,
{
    if let Some(t) = window::current(w) {
        assert(tabs::tab_wf(t));
        pane_tree::law_layout_order(t.root, window::pane_area(w));
        let panes = pane_tree::panes_of(t.root, window::pane_area(w));
        assert(pane_tree::names(panes).len() == panes.len());
        if t.root is Split {
            lemma_split_has_two(t.root);
        } else {
            assert(pane_tree::leaves(t.root).len() == 1);
        }
    }
}

proof fn lemma_split_has_two(t: pane_tree::Tree)
    requires
        pane_tree::wf(t),
        t is Split,
    ensures
        pane_tree::leaves(t).len() >= 2,
{
    let kids = t->kids;
    pane_tree::lemma_leaves_of_at(kids, 0);
    let rest = kids.skip(1);
    pane_tree::lemma_has_leaf(kids[0]);
    pane_tree::lemma_leaves_of_at(rest, 0);
    pane_tree::lemma_has_leaf(rest[0]);
    assert(rest[0] == kids[1]);
}

impl TermWindow {
    pub fn pane_rect(&self) -> (r: RectF)
        requires
            self.wf(),
        ensures
            r@ == window::pane_area(self@),
            pane_tree::area_ok(r@),
    {
        let w: i64 = chrome::units_of(self.frame.width as i32, self.frame.dpi);
        let h: i64 = chrome::units_of(self.frame.height as i32, self.frame.dpi);
        RectF {
            x: 0,
            y: chrome::TABBAR_H,
            w,
            h: if h < chrome::TABBAR_H {
                0
            } else {
                h - chrome::TABBAR_H
            },
        }
    }

    pub fn bar(&self) -> (r: Bar)
        requires
            self.wf(),
        ensures
            r == window::bar_of(self@),
            chrome::bar_ok(r),
            r.tabs == self.tabs@.len(),
    {
        Bar {
            width: chrome::units_of(self.frame.width as i32, self.frame.dpi),
            tabs: self.tabs.len(),
            framed: self.frame.custom,
        }
    }

    pub fn cell_size(&self) -> (r: CellSize)
        requires
            self.wf(),
        ensures
            r == window::cell_of(self@),
            tabs::cell_ok(r),
    {
        if self.active < self.tabs.len() {
            assert(self@.tabs[self.active as int] == self.tabs@[self.active as int]@);
            if let Some(c) = self.tabs[self.active].cell {
                return c;
            }
        }
        self.cell
    }

    /// The layout of the active tab.
    pub fn layout(&self) -> (r: Option<Layout>)
        requires
            self.wf(),
        ensures
            match r {
                Some(lay) => {
                    &&& window::current(self@) is Some
                    &&& pane_tree::placed(lay.panes@) == panes_on_show(self@)
                    &&& pane_tree::gutters(lay.dividers@) == gutters_on_show(self@)
                    &&& pane_tree::rects_ok(panes_on_show(self@))
                },
                None => window::current(self@) is None,
            },
    {
        if self.active >= self.tabs.len() {
            return None;
        }
        assert(self@.tabs[self.active as int] == self.tabs@[self.active as int]@);
        Some(self.tabs[self.active].layout(self.pane_rect()))
    }

    pub fn is_multi(&self) -> (r: bool)
        ensures
            r == titled(self@),
    {
        if self.active >= self.tabs.len() {
            return false;
        }
        assert(self@.tabs[self.active as int] == self.tabs@[self.active as int]@);
        let t = &self.tabs[self.active];
        proof {
            pane_tree::lemma_node_view(t.root);
        }
        t.zoomed.is_none() && matches!(t.root, Node::Split { .. })
    }

    /// The pane under a point, and its rectangle.
    pub fn pane_at(&self, x: i64, y: i64) -> (r: Option<(PaneId, RectF)>)
        requires
            self.wf(),
        ensures
            match r {
                Some(p) => {
                    &&& chrome::pane_hit(panes_on_show(self@), x as int, y as int) == Some(
                        (p.0, p.1@),
                    )
                    &&& pane_tree::rect_ok(p.1@)
                    &&& window::current(self@) matches Some(t) && t.panes.dom().contains(p.0)
                },
                None => chrome::pane_hit(panes_on_show(self@), x as int, y as int) is None,
            },
    {
        match self.layout() {
            Some(lay) => {
                let r = chrome::pane_at(&lay, x, y);
                proof {
                    if let Some(p) = r {
                        lemma_hit(self@, x as int, y as int);
                    }
                }
                r
            },
            None => None,
        }
    }

    fn fit_pane(&mut self, id: PaneId, r: &RectF, multi: bool)
        requires
            old(self).wf(),
            pane_tree::rect_ok(r@),
            window::current(old(self)@) matches Some(t) && t.panes.dom().contains(id),
        ensures
            final(self).wf(),
            final(self)@ == pane_fitted(old(self)@, id, r@, multi),
    {
        let c = chrome::content_rect(*r, multi);
        let cell = self.cell_size();
        let i: usize = self.active;
        let ghost t = window::current(self@)->0;
        assert(t == self.tabs@[i as int]@);
        let found = match self.tabs[i].pane(id) {
            Some(p) => match &p.kind {
                PaneKind::Term(p) => Some((p.cols, p.rows)),
                PaneKind::Browser(_) => None,
            },
            None => None,
        };
        match found {
            Some((have_cols, have_rows)) => {
                let cols: u16 = fit_cells(c.w, cell.w, 2);
                let rows: u16 = fit_cells(c.h, cell.h, 1);
                if have_cols == cols && have_rows == rows {
                    return;
                }
                let cw: u16 = (cell.w / DIP) as u16;
                let ch: u16 = (cell.h / DIP) as u16;
                resize_term(&mut self.tabs[i], id, cols, rows, cw, ch);
                proof {
                    self.lemma_one_tab(*old(self), i as int);
                }
                self.act(Act::Resize { pane: id, cols, rows });
            },
            None => {
                let dpi: u32 = self.frame.dpi;
                let b = chrome::browser_chrome(c);
                let page = PixelRect {
                    left: chrome::px_of(c.x, dpi),
                    top: chrome::px_of(b.toolbar.y + b.toolbar.h, dpi),
                    right: chrome::px_of(c.x + c.w, dpi),
                    bottom: chrome::px_of(c.y + c.h, dpi),
                };
                let edit = PixelRect {
                    left: chrome::px_of(b.edit.x, dpi),
                    top: chrome::px_of(b.edit.y, dpi),
                    right: chrome::px_of(b.edit.x + b.edit.w, dpi),
                    bottom: chrome::px_of(b.edit.y + b.edit.h, dpi),
                };
                proof {
                    assert(b.edit@ == edit_area(c@));
                    assert(b.toolbar@ == Area { h: chrome::TOOLBAR_H as int, ..c@ });
                }
                self.act(Act::Place { pane: id, page, edit });
            },
        }
    }

    /// One tab has been changed, and is in order.
    pub proof fn lemma_one_tab(self, before: TermWindow, i: int)
        requires
            before.wf(),
            0 <= i < before.tabs@.len(),
            self.tabs@.len() == before.tabs@.len(),
            forall|k: int|
                0 <= k < self.tabs@.len() && k != i ==> #[trigger] self.tabs@[k] == before.tabs@[k],
            tabs::tab_wf(self.tabs@[i]@),
        ensures
            self@.tabs == before@.tabs.update(i, self.tabs@[i]@),
            window::tabs_ok(self@.tabs),
    {
        assert(self@.tabs =~= before@.tabs.update(i, self.tabs@[i]@));
        assert forall|k: int| 0 <= k < self@.tabs.len() implies tabs::tab_wf(
            #[trigger] self@.tabs[k],
        ) by {
            if k != i {
                assert(self@.tabs[k] == before@.tabs[k]);
            }
        }
    }

    /// Fit the panes of the active tab to the window.
    pub fn relayout(&mut self)
        requires
            old(self).wf(),
        ensures
            final(self).wf(),
            final(self)@ == relaid(old(self)@),
    {
        let multi = self.is_multi();
        let lay = match self.layout() {
            Some(lay) => lay,
            None => {
                return;
            },
        };
        let ghost before = self@;
        let ghost panes = panes_on_show(before);
        let mut k: usize = 0;
        while k < lay.panes.len()
            invariant
                k <= lay.panes@.len() == panes.len(),
                panes == panes_on_show(before),
                pane_tree::placed(lay.panes@) == panes,
                pane_tree::rects_ok(panes),
                multi == titled(before),
                window::win_wf(before),
                window::current(before) is Some,
                self.wf(),
                self@ == fitted(before, panes, multi, k as int),
                same_panes(before, self@),
            decreases lay.panes@.len() - k,
        {
            let (id, r) = lay.panes[k];
            proof {
                assert(panes[k as int] == (id, r@));
                lemma_shown(
                    window::current(before)->0,
                    window::pane_area(before),
                    k as int,
                );
                lemma_fitted_same(self@, id, r@, multi);
            }
            self.fit_pane(id, &r, multi);
            k += 1;
        }
    }
}

/// Fitting touches neither the tabs' panes nor their trees.
pub open spec fn same_panes(a: Win, b: Win) -> bool {
    &&& a.tabs.len() == b.tabs.len()
    &&& a.active == b.active
    &&& window::current(a) matches Some(t) ==> window::current(b) matches Some(u)
        && t.panes.dom() == u.panes.dom()
}

proof fn lemma_fitted_same(w: Win, id: PaneId, r: Area, multi: bool)
    requires
        window::current(w) matches Some(t) && t.panes.dom().contains(id),
    ensures
        same_panes(w, pane_fitted(w, id, r, multi)),
{
    let t = window::current(w)->0;
    let u = window::current(pane_fitted(w, id, r, multi))->0;
    assert(t.panes.dom() =~= u.panes.dom());
}

proof fn lemma_hit(w: Win, x: int, y: int)
    requires
        window::win_wf(w),
        chrome::pane_hit(panes_on_show(w), x, y) is Some,
    ensures
        window::current(w) matches Some(t) && t.panes.dom().contains(
            (chrome::pane_hit(panes_on_show(w), x, y)->0).0,
        ),
{
    chrome::lemma_pane_hit(panes_on_show(w), x, y);
    let panes = panes_on_show(w);
    let p = chrome::pane_hit(panes, x, y)->0;
    let i = choose|i: int| 0 <= i < panes.len() && panes[i] == p;
    if let Some(t) = window::current(w) {
        assert(tabs::tab_wf(t));
        lemma_shown(t, window::pane_area(w), i);
    }
}

fn resize_term(t: &mut Tab, id: PaneId, cols: u16, rows: u16, cell_w: u16, cell_h: u16)
    requires
        tabs::tab_wf(old(t)@),
        window::is_term(old(t)@, id),
    ensures
        tabs::tab_wf(final(t)@),
        final(t)@ == (TabModel {
            panes: old(t)@.panes.insert(
                id,
                Pane {
                    id,
                    kind: PaneKind::Term(
                        TermPane { cols, rows, cell_w, cell_h, ..old(t)@.panes[id].kind->Term_0 },
                    ),
                },
            ),
            ..old(t)@
        }),
{
    let ghost before = t@;
    match t.take(id) {
        Some(p) => match p.kind {
            PaneKind::Term(mut p) => {
                p.resize(cols, rows, cell_w, cell_h);
                t.panes.insert(id, Pane { id, kind: PaneKind::Term(p) });
                assert(t@.panes =~= before.panes.insert(
                    id,
                    Pane { id, kind: PaneKind::Term(p) },
                ));
            },
            PaneKind::Browser(b) => {},
        },
        None => {},
    }
}

/// As many cells fit an extent as stand in it inside the padding: one more would
/// not, unless there are none to spare or too many to count.
pub proof fn law_cells_fit(extent: int, cell: int, least: int)
    requires
        cell > 0,
        0 <= least <= 0xffff,
    ensures
        ({
            let n = cells_fit(extent, cell, least);
            let inner = extent - 2 * chrome::PANE_PAD;
            &&& least <= n <= 0xffff
            &&& n > least ==> n * cell <= inner
            &&& n < 0xffff ==> (n + 1) * cell > inner
        }),
{
    let inner = extent - 2 * chrome::PANE_PAD;
    let q = inner / cell;
    if inner >= 0 {
        assert(q * cell <= inner < (q + 1) * cell) by (nonlinear_arith)
            requires
                q == inner / cell,
                cell > 0,
        ;
        let n = cells_fit(extent, cell, least);
        assert(n >= q ==> (n + 1) * cell >= (q + 1) * cell) by (nonlinear_arith)
            requires
                cell > 0,
        ;
        assert(n <= q ==> n * cell <= q * cell) by (nonlinear_arith)
            requires
                cell > 0,
        ;
    } else {
        let n = cells_fit(extent, cell, least);
        assert((n + 1) * cell > 0) by (nonlinear_arith)
            requires
                cell > 0,
                n >= 0,
        ;
    }
}

/// A terminal that is fitted to an area has just the columns and rows that its
/// content has room for, and its shell is told where they have changed.
pub proof fn law_terminal_fits_pane(w: Win, id: PaneId, r: Area, multi: bool, t: TabModel)
    requires
        window::win_wf(w),
        window::current(w) == Some(t),
        window::is_term(t, id),
    ensures
        ({
            let c = chrome::content_area(r, multi);
            let cell = window::cell_of(w);
            let x = pane_fitted(w, id, r, multi);
            let u = x.tabs[w.active];
            &&& u.panes[id].kind matches PaneKind::Term(p) && t.panes[id].kind matches PaneKind::Term(
                q,
            ) && {
                &&& p.cols == cells_fit(c.w, cell.w as int, 2)
                &&& p.rows == cells_fit(c.h, cell.h as int, 1)
                &&& p.cols != q.cols || p.rows != q.rows ==> x.work == w.work.push(
                    window::Work::Act(Act::Resize { pane: id, cols: p.cols, rows: p.rows }),
                )
                &&& p.cols == q.cols && p.rows == q.rows ==> x == w
                &&& p.title == q.title && p.profile_name == q.profile_name
            }
            &&& u.root == t.root && u.active == t.active
            &&& forall|o: PaneId|
                o != id && t.panes.dom().contains(o) ==> #[trigger] u.panes[o] == t.panes[o]
        }),
{
    let c = chrome::content_area(r, multi);
    let cell = window::cell_of(w);
    assert(tabs::tab_wf(w.tabs[w.active]));
    law_cells_fit(c.w, cell.w as int, 2);
    law_cells_fit(c.h, cell.h as int, 1);
}

/// A page is placed below its toolbar, from edge to edge, with its URL bar in
/// the toolbar.
pub proof fn law_page_below_toolbar(w: Win, id: PaneId, r: Area, multi: bool, t: TabModel)
    requires
        window::current(w) == Some(t),
        window::is_browser(t, id),
    ensures
        ({
            let c = chrome::content_area(r, multi);
            let dpi = w.frame.dpi;
            let x = pane_fitted(w, id, r, multi);
            x.work.last() matches window::Work::Act(Act::Place { pane, page, edit }) && {
                &&& x.work.len() == w.work.len() + 1
                &&& pane == id
                &&& page.left == chrome::pixels_of(c.x, dpi)
                &&& page.right == chrome::pixels_of(c.x + c.w, dpi)
                &&& page.top == chrome::pixels_of(c.y + 34 * DIP, dpi)
                &&& page.bottom == chrome::pixels_of(c.y + c.h, dpi)
                &&& edit.top == chrome::pixels_of(c.y + 5 * DIP, dpi)
                &&& edit.bottom == chrome::pixels_of(c.y + 29 * DIP, dpi)
                &&& edit.left == chrome::pixels_of(c.x + 96 * DIP, dpi)
                &&& c.w >= 202 * DIP ==> edit.right == chrome::pixels_of(c.x + c.w - 66 * DIP, dpi)
            }
        }),
{
}

/// The panes on show are fitted one after the other, each to its own area.
pub proof fn law_panes_are_fitted(w: Win, panes: Seq<(PaneId, Area)>, multi: bool, n: int)
    requires
        0 < n <= panes.len(),
    ensures
        fitted(w, panes, multi, n) == pane_fitted(
            fitted(w, panes, multi, n - 1),
            panes[n - 1].0,
            panes[n - 1].1,
            multi,
        ),
        fitted(w, panes, multi, 0) == w,
        relaid(w) == fitted(
            w,
            panes_on_show(w),
            titled(w),
            panes_on_show(w).len() as int,
        ),
{
}

} // verus!
