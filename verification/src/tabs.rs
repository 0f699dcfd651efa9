//! Tabs own a pane tree and the panes themselves, so that a whole tab can be
//! handed from one window to another.
use vstd::prelude::*;
use std::collections::HashMap;
use crate::browser_pane::BrowserPane;
use crate::pane_tree;
use crate::pane_tree::{Dir, Layout, Node, PaneId, RectF, Tree};
use crate::term_pane::TermPane;
use crate::text;

verus! {

broadcast use vstd::std_specs::hash::group_hash_axioms;

pub enum PaneKind {
    Term(TermPane),
    Browser(BrowserPane),
}

pub struct Pane {
    pub id: PaneId,
    pub kind: PaneKind,
}

/// What a pane is called.
pub open spec fn pane_title(p: Pane) -> Seq<char> {
    match p.kind {
        PaneKind::Term(t) => if t.title@.len() == 0 {
            t.profile_name@
        } else {
            t.title@
        },
        PaneKind::Browser(b) => b.title@,
    }
}

impl Pane {
    pub fn title(&self) -> (r: String)
        ensures
            r@ == pane_title(*self),
    {
        match &self.kind {
            PaneKind::Term(t) => t.title(),
            PaneKind::Browser(b) => b.title(),
        }
    }
}

/// Size of a character cell, in units of length.
#[derive(Clone, Copy, PartialEq, Eq, Debug, Structural)]
pub struct CellSize {
    pub w: i64,
    pub h: i64,
}

pub struct Tab {
    pub root: Node,
    pub panes: HashMap<PaneId, Pane>,
    pub active: PaneId,
    pub zoomed: Option<PaneId>,
    /// Font size of the tab, in thousandths of a point.
    pub font_size: i32,
    /// Cell size of the tab's own fonts, where it has its own.
    pub cell: Option<CellSize>,
}

/// The tab that a `Tab` stands for.
#[verifier::ext_equal]
pub struct TabModel {
    pub root: Tree,
    pub panes: Map<PaneId, Pane>,
    pub active: PaneId,
    pub zoomed: Option<PaneId>,
    pub font_size: i32,
    pub cell: Option<CellSize>,
}

impl View for Tab {
    type V = TabModel;

    open spec fn view(&self) -> TabModel {
        TabModel {
            root: self.root@,
            panes: self.panes@,
            active: self.active,
            zoomed: self.zoomed,
            font_size: self.font_size,
            cell: self.cell,
        }
    }
}

/// Largest width and height of a cell.
pub const MAX_CELL: i64 = 0x100_0000;

/// Whether the cell size is one that text can be set in.
pub open spec fn cell_ok(c: CellSize) -> bool {
    0 < c.w <= MAX_CELL && 0 < c.h <= MAX_CELL
}

/// Each pane of the tree is there once, under its own id, and nothing else
/// is; the active pane and a zoomed one are among them.
pub open spec fn tab_wf(t: TabModel) -> bool {
    &&& pane_tree::wf(t.root)
    &&& pane_tree::leaves(t.root).len() <= pane_tree::MAX_PANES
    &&& pane_tree::leaves(t.root).no_duplicates()
    &&& forall|id: PaneId|
        #![trigger t.panes.dom().contains(id)]
        #![trigger pane_tree::leaves(t.root).contains(id)]
        t.panes.dom().contains(id) <==> pane_tree::leaves(t.root).contains(id)
    &&& forall|id: PaneId| #[trigger] t.panes.dom().contains(id) ==> t.panes[id].id == id
    &&& pane_tree::leaves(t.root).contains(t.active)
    &&& t.zoomed matches Some(z) ==> pane_tree::leaves(t.root).contains(z)
    &&& t.cell matches Some(c) ==> cell_ok(c)
}

/// A tab with one pane.
pub open spec fn single_tab(pane: Pane, font_size: i32) -> TabModel {
    TabModel {
        root: Tree::Leaf(pane.id),
        panes: Map::empty().insert(pane.id, pane),
        active: pane.id,
        zoomed: None,
        font_size,
        cell: None,
    }
}

/// The tab after its pane `target` was split and `pane` put behind it.
pub open spec fn with_pane(t: TabModel, target: PaneId, dir: Dir, pane: Pane) -> TabModel {
    TabModel {
        root: pane_tree::split_tree(t.root, target, dir, pane.id, false),
        panes: t.panes.insert(pane.id, pane),
        zoomed: None,
        ..t
    }
}

/// Whether a pane can leave the tab: not the last one.
pub open spec fn can_leave(t: TabModel, id: PaneId) -> bool {
    t.root is Split && t.panes.dom().contains(id)
}

/// The tab after a pane left it: where that was the active one, the first of
/// the others is.
pub open spec fn without_pane(t: TabModel, id: PaneId) -> TabModel {
    let root = pane_tree::remove_tree(t.root, id);
    TabModel {
        root,
        panes: t.panes.remove(id),
        active: if t.active == id {
            pane_tree::leaves(root)[0]
        } else {
            t.active
        },
        zoomed: if t.zoomed == Some(id) {
            None
        } else {
            t.zoomed
        },
        ..t
    }
}

/// What a tab is called: its active pane's title, or "Terminal".
pub open spec fn tab_title(t: TabModel) -> Seq<char> {
    let own = pane_title(t.panes[t.active]);
    if own.len() == 0 {
        "Terminal"@
    } else {
        own
    }
}

/// The pane with its page shown or hidden; a terminal is left as it is.
pub open spec fn shown_pane(p: Pane, visible: bool) -> Pane {
    match p.kind {
        PaneKind::Term(_) => p,
        PaneKind::Browser(b) => Pane {
            id: p.id,
            kind: PaneKind::Browser(BrowserPane { visible, ..b }),
        },
    }
}

/// The tab with all its pages shown or hidden.
pub open spec fn shown_tab(t: TabModel, visible: bool) -> TabModel {
    TabModel { panes: t.panes.map_values(|p: Pane| shown_pane(p, visible)), ..t }
}

pub proof fn lemma_put_beside(
    l: Seq<PaneId>,
    after: Seq<PaneId>,
    target: PaneId,
    new_id: PaneId,
    before: bool,
)
    requires
        pane_tree::put_beside(l, after, target, new_id, before),
        l.no_duplicates(),
        !l.contains(new_id),
    ensures
        after.no_duplicates(),
        after.len() == l.len() + 1,
        forall|id: PaneId| #[trigger] after.contains(id) <==> l.contains(id) || id == new_id,
{
    let k = choose|k: int|
        0 <= k < l.len() && #[trigger] l[k] == target && after == l.insert(
            if before {
                k
            } else {
                k + 1
            },
            new_id,
        );
    let at = if before { k } else { k + 1 };
    assert(after == l.insert(at, new_id));
    assert forall|id: PaneId| #[trigger] after.contains(id) <==> l.contains(id) || id
        == new_id by {
        if after.contains(id) {
            let i = choose|i: int| 0 <= i < after.len() && after[i] == id;
            if i < at {
                assert(l[i] == id);
            } else if i > at {
                assert(l[i - 1] == id);
            }
        }
        if l.contains(id) {
            let i = choose|i: int| 0 <= i < l.len() && l[i] == id;
            assert(after[if i < at { i } else { i + 1 }] == id);
        }
        assert(after[at] == new_id);
    }
    assert forall|i: int, j: int| 0 <= i < j < after.len() implies after[i] != after[j] by {
        let a = if i < at { i } else { i - 1 };
        let b = if j < at { j } else { j - 1 };
        if i == at {
            assert(after[j] == l[b]);
            assert(l.contains(l[b]));
        } else if j == at {
            assert(after[i] == l[a]);
            assert(l.contains(l[a]));
        } else {
            assert(after[i] == l[a]);
            assert(after[j] == l[b]);
        }
    }
}

pub proof fn lemma_taken_out(l: Seq<PaneId>, after: Seq<PaneId>, target: PaneId)
    requires
        pane_tree::taken_out(l, after, target),
        l.no_duplicates(),
    ensures
        after.no_duplicates(),
        after.len() == l.len() - 1,
        forall|id: PaneId| #[trigger] after.contains(id) <==> l.contains(id) && id != target,
{
    let k = choose|k: int| 0 <= k < l.len() && #[trigger] l[k] == target && after == l.remove(k);
    assert forall|i: int| 0 <= i < after.len() implies after[i] == l[if i < k { i } else { i
        + 1 }] by {}
    assert forall|id: PaneId| #[trigger] after.contains(id) <==> l.contains(id) && id
        != target by {
        if after.contains(id) {
            let i = choose|i: int| 0 <= i < after.len() && after[i] == id;
            let m = if i < k { i } else { i + 1 };
            assert(l[m] == id);
            assert(m != k);
        }
        if l.contains(id) && id != target {
            let i = choose|i: int| 0 <= i < l.len() && l[i] == id;
            assert(i != k);
            assert(after[if i < k { i } else { i - 1 }] == id);
        }
    }
}

/// A split keeps the tab in order: the new pane joins the others.
pub proof fn law_split_tab(t: TabModel, target: PaneId, dir: Dir, pane: Pane)
    requires
        tab_wf(t),
        t.panes.dom().contains(target),
        !t.panes.dom().contains(pane.id),
        pane_tree::leaves(t.root).len() < pane_tree::MAX_PANES,
    ensures
        tab_wf(with_pane(t, target, dir, pane)),
        with_pane(t, target, dir, pane).panes.dom() == t.panes.dom().insert(pane.id),
{
    let t1 = with_pane(t, target, dir, pane);
    assert(pane_tree::leaves(t.root).contains(target));
    assert(!pane_tree::leaves(t.root).contains(pane.id));
    pane_tree::law_split(t.root, target, dir, pane.id, false);
    lemma_put_beside(
        pane_tree::leaves(t.root),
        pane_tree::leaves(t1.root),
        target,
        pane.id,
        false,
    );
    assert(t1.panes.dom() =~= t.panes.dom().insert(pane.id));
}

/// A pane that leaves takes nothing else along: the tab stays in order with
/// the others.
pub proof fn law_remove_from_tab(t: TabModel, id: PaneId)
    requires
        tab_wf(t),
        can_leave(t, id),
    ensures
        tab_wf(without_pane(t, id)),
        without_pane(t, id).panes.dom() == t.panes.dom().remove(id),
{
    let t1 = without_pane(t, id);
    assert(pane_tree::leaves(t.root).contains(id));
    pane_tree::law_remove(t.root, id);
    lemma_taken_out(pane_tree::leaves(t.root), pane_tree::leaves(t1.root), id);
    pane_tree::lemma_has_leaf(t1.root);
    assert(pane_tree::leaves(t1.root).contains(pane_tree::leaves(t1.root)[0]));
    assert(t1.panes.dom() =~= t.panes.dom().remove(id));
}

/// Closing the pane that a split added gives back the panes there were.
pub proof fn law_close_undoes_split(t: TabModel, dir: Dir, pane: Pane)
    requires
        tab_wf(t),
        !t.panes.dom().contains(pane.id),
        pane_tree::leaves(t.root).len() < pane_tree::MAX_PANES,
    ensures
        can_leave(with_pane(t, t.active, dir, pane), pane.id),
        without_pane(with_pane(t, t.active, dir, pane), pane.id).panes == t.panes,
        pane_tree::leaves(without_pane(with_pane(t, t.active, dir, pane), pane.id).root)
            == pane_tree::leaves(t.root),
{
    assert(t.panes.dom().contains(t.active));
    assert(!pane_tree::leaves(t.root).contains(pane.id));
    law_split_tab(t, t.active, dir, pane);
    pane_tree::law_split(t.root, t.active, dir, pane.id, false);
    pane_tree::law_remove_undoes_split(t.root, t.active, dir, pane.id, false);
    assert(t.panes.insert(pane.id, pane).remove(pane.id) =~= t.panes);
}

impl Tab {
    pub fn single(pane: Pane, font_size: i32) -> (r: Tab)
        ensures
            r@ == single_tab(pane, font_size),
            tab_wf(r@),
    {
        let id: PaneId = pane.id;
        let mut panes: HashMap<PaneId, Pane> = HashMap::new();
        panes.insert(id, pane);
        let r = Tab {
            root: Node::Leaf(id),
            panes,
            active: id,
            zoomed: None,
            font_size,
            cell: None,
        };
        proof {
            pane_tree::lemma_node_view(r.root);
            assert(pane_tree::leaves(r@.root) =~= seq![id]);
            assert(pane_tree::leaves(r@.root)[0] == id);
        }
        r
    }

    pub fn title(&self) -> (r: String)
        requires
            tab_wf(self@),
        ensures
            r@ == tab_title(self@),
    {
        assert(self@.panes.dom().contains(self.active));
        let t = match self.panes.get(&self.active) {
            Some(p) => p.title(),
            None => String::new(),
        };
        if t.as_str().is_empty() {
            text::owned("Terminal")
        } else {
            t
        }
    }

    pub fn layout(&self, area: RectF) -> (r: Layout)
        requires
            tab_wf(self@),
            pane_tree::area_ok(area@),
        ensures
            pane_tree::placed(r.panes@) == pane_tree::layout_panes(
                self@.root,
                area@,
                self.zoomed,
            ),
            pane_tree::gutters(r.dividers@) == pane_tree::layout_gutters(
                self@.root,
                area@,
                self.zoomed,
            ),
            pane_tree::rects_ok(pane_tree::placed(r.panes@)),
    {
        pane_tree::layout(&self.root, area, self.zoomed)
    }

    /// Split the active pane; the new one becomes active.
    pub fn split(&mut self, dir: Dir, new_pane: Pane)
        requires
            tab_wf(old(self)@),
            !old(self)@.panes.dom().contains(new_pane.id),
            pane_tree::leaves(old(self)@.root).len() < pane_tree::MAX_PANES,
        ensures
            tab_wf(final(self)@),
            final(self)@ == (TabModel {
                active: new_pane.id,
                ..with_pane(old(self)@, old(self).active, dir, new_pane)
            }),
    {
        let id: PaneId = new_pane.id;
        self.split_at(self.active, dir, new_pane);
        proof {
            assert(self@.panes.dom().contains(id));
        }
        self.active = id;
    }

    /// Split a pane of the tab; which one is active stays as it is.
    pub fn split_at(&mut self, target: PaneId, dir: Dir, new_pane: Pane)
        requires
            tab_wf(old(self)@),
            old(self)@.panes.dom().contains(target),
            !old(self)@.panes.dom().contains(new_pane.id),
            pane_tree::leaves(old(self)@.root).len() < pane_tree::MAX_PANES,
        ensures
            tab_wf(final(self)@),
            final(self)@ == with_pane(old(self)@, target, dir, new_pane),
    {
        proof {
            law_split_tab(self@, target, dir, new_pane);
        }
        pane_tree::split(&mut self.root, target, dir, new_pane.id);
        self.panes.insert(new_pane.id, new_pane);
        self.zoomed = None;
    }

    /// Take a pane out. `None` means that it is the last one, so that the tab
    /// itself should be closed, or is not in the tab.
    pub fn remove(&mut self, id: PaneId) -> (r: Option<Pane>)
        requires
            tab_wf(old(self)@),
        ensures
            tab_wf(final(self)@),
            if can_leave(old(self)@, id) {
                &&& r == Some(old(self)@.panes[id])
                &&& final(self)@ == without_pane(old(self)@, id)
            } else {
                &&& r is None
                &&& final(self)@ == old(self)@
            },
    {
        proof {
            if can_leave(self@, id) {
                law_remove_from_tab(self@, id);
            }
        }
        let ghost before = self@;
        assert(before.panes.dom().contains(id) <==> pane_tree::leaves(before.root).contains(id));
        if !pane_tree::remove(&mut self.root, id) {
            proof {
                lemma_remove_nothing(before.root, id);
            }
            return None;
        }
        let pane = self.panes.remove(&id);
        if let Some(z) = self.zoomed {
            if z == id {
                self.zoomed = None;
            }
        }
        if self.active == id {
            let leaves = pane_tree::collect_leaves(&self.root);
            proof {
                pane_tree::lemma_has_leaf(self.root@);
            }
            self.active = leaves[0];
        }
        pane
    }

    pub fn pane(&self, id: PaneId) -> (r: Option<&Pane>)
        ensures
            match r {
                Some(p) => self@.panes.dom().contains(id) && *p == self@.panes[id],
                None => !self@.panes.dom().contains(id),
            },
    {
        self.panes.get(&id)
    }

    /// Put a pane back that is in the tab, changed.
    pub fn put(&mut self, pane: Pane)
        requires
            tab_wf(old(self)@),
            old(self)@.panes.dom().contains(pane.id),
        ensures
            tab_wf(final(self)@),
            final(self)@ == (TabModel {
                panes: old(self)@.panes.insert(pane.id, pane),
                ..old(self)@
            }),
    {
        self.panes.insert(pane.id, pane);
    }

    /// Take a pane of the tab in hand, to be put back.
    pub fn take(&mut self, id: PaneId) -> (r: Option<Pane>)
        ensures
            final(self)@ == (TabModel { panes: old(self)@.panes.remove(id), ..old(self)@ }),
            match r {
                Some(p) => old(self)@.panes.dom().contains(id) && p == old(self)@.panes[id],
                None => !old(self)@.panes.dom().contains(id),
            },
    {
        self.panes.remove(&id)
    }

    pub fn active_term(&self) -> (r: Option<&TermPane>)
        requires
            tab_wf(self@),
        ensures
            match self@.panes[self.active].kind {
                PaneKind::Term(t) => r == Some(&t),
                PaneKind::Browser(_) => r is None,
            },
    {
        assert(self@.panes.dom().contains(self.active));
        match self.panes.get(&self.active) {
            Some(p) => match &p.kind {
                PaneKind::Term(t) => Some(t),
                PaneKind::Browser(_) => None,
            },
            None => None,
        }
    }

    /// Whether the active pane is a browser.
    pub fn active_is_browser(&self) -> (r: bool)
        requires
            tab_wf(self@),
        ensures
            r == (self@.panes[self.active].kind is Browser),
    {
        assert(self@.panes.dom().contains(self.active));
        match self.panes.get(&self.active) {
            Some(p) => matches!(p.kind, PaneKind::Browser(_)),
            None => false,
        }
    }

    pub fn find_pane_by_id(&self, id: PaneId) -> (r: bool)
        ensures
            r == self@.panes.dom().contains(id),
    {
        self.panes.contains_key(&id)
    }

    /// Show or hide every page of the tab.
    pub fn show_pages(&mut self, visible: bool)
        requires
            tab_wf(old(self)@),
        ensures
            tab_wf(final(self)@),
            final(self)@ == shown_tab(old(self)@, visible),
    {
        let ghost before = self@;
        let leaves = pane_tree::collect_leaves(&self.root);
        let mut i: usize = 0;
        while i < leaves.len()
            invariant
                i <= leaves@.len(),
                leaves@ == pane_tree::leaves(before.root),
                tab_wf(before),
                self@ == (TabModel { panes: self@.panes, ..before }),
                self@.panes.dom() == before.panes.dom(),
                forall|k: int|
                    0 <= k < i ==> self@.panes[#[trigger] leaves@[k]] == shown_pane(
                        before.panes[leaves@[k]],
                        visible,
                    ),
                forall|k: int|
                    i <= k < leaves@.len() ==> self@.panes[#[trigger] leaves@[k]]
                        == before.panes[leaves@[k]],
            decreases leaves@.len() - i,
        {
            let id: PaneId = leaves[i];
            assert(leaves@.contains(id));
            assert(before.panes.dom().contains(id));
            match self.panes.remove(&id) {
                Some(p) => {
                    let p = shown(p, visible);
                    self.panes.insert(id, p);
                },
                None => {},
            }
            assert(self@.panes.dom() =~= before.panes.dom());
            i += 1;
        }
        proof {
            let want = shown_tab(before, visible).panes;
            assert forall|id: PaneId| before.panes.dom().contains(id) implies self@.panes[id]
                == want[id] by {
                assert(leaves@.contains(id));
                let k = choose|k: int| 0 <= k < leaves@.len() && leaves@[k] == id;
                assert(self@.panes[leaves@[k]] == shown_pane(before.panes[id], visible));
            }
            assert(self@.panes =~= want);
        }
    }
}

/// Show or hide the page of a pane.
pub fn shown(p: Pane, visible: bool) -> (r: Pane)
    ensures
        r == shown_pane(p, visible),
{
    match p.kind {
        PaneKind::Term(t) => Pane { id: p.id, kind: PaneKind::Term(t) },
        PaneKind::Browser(b) => {
            let mut b = b;
            b.show(visible);
            Pane { id: p.id, kind: PaneKind::Browser(b) }
        },
    }
}

/// Taking a pane out of a tree that does not hold it, or holds nothing else,
/// changes nothing.
proof fn lemma_remove_nothing(t: Tree, id: PaneId)
    requires
        pane_tree::wf(t),
        !(t is Split && pane_tree::leaves(t).contains(id)),
    ensures
        pane_tree::remove_tree(t, id) == t,
{
    if t is Split {
        pane_tree::lemma_leaf_pos(t->kids, id);
        pane_tree::lemma_holder_pos(t->kids, id);
        pane_tree::lemma_leaves_of_contains(t->kids, id);
        let i = pane_tree::leaf_pos(t->kids, id);
        if i < t->kids.len() {
            assert(pane_tree::leaves(t->kids[i])[0] == id);
        }
    }
}

/// A terminal is called by the title it was given, or else by its profile; a
/// page by its own title; a tab as its active pane, or "Terminal" where that
/// has no name.
pub proof fn law_titles(t: TabModel)
    ensures
        t.panes[t.active].kind matches PaneKind::Term(p) ==> tab_title(t) == (if p.title@.len()
            > 0 {
            p.title@
        } else if p.profile_name@.len() > 0 {
            p.profile_name@
        } else {
            "Terminal"@
        }),
        t.panes[t.active].kind matches PaneKind::Browser(b) ==> tab_title(t) == (if b.title@.len()
            > 0 {
            b.title@
        } else {
            "Terminal"@
        }),
{
}

/// A split puts the new pane right behind its target and ends a zoom; the
/// target stays active, and the panes there were keep all they hold.
pub proof fn law_split_places_pane(t: TabModel, target: PaneId, dir: Dir, pane: Pane)
    requires
        tab_wf(t),
        t.panes.dom().contains(target),
        !t.panes.dom().contains(pane.id),
    ensures
        ({
            let r = with_pane(t, target, dir, pane);
            &&& pane_tree::put_beside(
                pane_tree::leaves(t.root),
                pane_tree::leaves(r.root),
                target,
                pane.id,
                false,
            )
            &&& r.zoomed is None
            &&& r.active == t.active
            &&& r.font_size == t.font_size && r.cell == t.cell
            &&& r.panes[pane.id] == pane
            &&& forall|id: PaneId|
                t.panes.dom().contains(id) ==> #[trigger] r.panes[id] == t.panes[id]
        }),
{
    pane_tree::law_split(t.root, target, dir, pane.id, false);
}

/// A pane that leaves is gone, and the others keep what they hold and their
/// order. The active pane stays active unless it is the one that left, and the
/// zoom stays unless it was of that one.
pub proof fn law_leaving_keeps_others(t: TabModel, id: PaneId)
    requires
        tab_wf(t),
        can_leave(t, id),
    ensures
        ({
            let r = without_pane(t, id);
            &&& !r.panes.dom().contains(id)
            &&& pane_tree::taken_out(pane_tree::leaves(t.root), pane_tree::leaves(r.root), id)
            &&& forall|x: PaneId|
                x != id && t.panes.dom().contains(x) ==> #[trigger] r.panes[x] == t.panes[x]
            &&& t.active != id ==> r.active == t.active
            &&& t.active == id ==> r.active != id && r.panes.dom().contains(r.active)
            &&& t.zoomed != Some(id) ==> r.zoomed == t.zoomed
            &&& t.zoomed == Some(id) ==> r.zoomed is None
            &&& r.font_size == t.font_size && r.cell == t.cell
        }),
{
    pane_tree::law_remove(t.root, id);
    law_remove_from_tab(t, id);
}

} // verus!
