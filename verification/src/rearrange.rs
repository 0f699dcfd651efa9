//! Where a dragged pane lands, and what that does to the tab.
use vstd::prelude::*;
use crate::chrome;
use crate::fitting;
use crate::pane_tree;
use crate::pane_tree::{Area, Dir, PaneId, RectF, DIP};
use crate::tabs;
use crate::tabs::{Tab, TabModel};
use crate::window::{TermWindow, Win};

verus! {

/// Where a dragged pane would land, and the rectangle to highlight.
#[derive(Clone, Copy, PartialEq, Eq, Debug, Structural)]
pub enum DropTarget {
    /// Beside `target`, which is split.
    Zone { target: PaneId, dir: Dir, before: bool, preview: RectF },
    /// In the place of `target`.
    Swap { target: PaneId, preview: RectF },
    /// On the tab bar: the pane becomes a tab of its own.
    NewTab,
    Nothing,
}

/// The drop target, as a value.
pub enum Landing {
    Zone { target: PaneId, dir: Dir, before: bool, preview: Area },
    Swap { target: PaneId, preview: Area },
    NewTab,
    Nothing,
}

impl View for DropTarget {
    type V = Landing;

    open spec fn view(&self) -> Landing {
        match self {
            DropTarget::Zone { target, dir, before, preview } => Landing::Zone {
                target: *target,
                dir: *dir,
                before: *before,
                preview: preview@,
            },
            DropTarget::Swap { target, preview } => Landing::Swap {
                target: *target,
                preview: preview@,
            },
            DropTarget::NewTab => Landing::NewTab,
            DropTarget::Nothing => Landing::Nothing,
        }
    }
}

/// An extent, one pixel at least.
pub open spec fn at_least_a_pixel(v: int) -> int {
    if v < DIP {
        DIP as int
    } else {
        v
    }
}

/// The distances of a point from the left, right, top and bottom edge of an
/// area, each as a numerator over the extent that way.
pub open spec fn from_left(r: Area, x: int) -> int {
    pane_tree::clamped(x - r.x, 0, at_least_a_pixel(r.w))
}

pub open spec fn from_top(r: Area, y: int) -> int {
    pane_tree::clamped(y - r.y, 0, at_least_a_pixel(r.h))
}

/// The edge of the area that is relatively nearest to the point: a direction,
/// and whether it is the first edge that way. Of equally near ones the first
/// of left, right, top, bottom.
pub open spec fn nearest_edge(r: Area, x: int, y: int) -> (Dir, bool) {
    let w = at_least_a_pixel(r.w);
    let h = at_least_a_pixel(r.h);
    let a = from_left(r, x);
    let b = from_top(r, y);
    let across = if w - a < a {
        w - a
    } else {
        a
    };
    let down = if h - b < b {
        h - b
    } else {
        b
    };
    if down * w < across * h {
        (Dir::Col, h - b >= b)
    } else {
        (Dir::Row, w - a >= a)
    }
}

/// Whether the edge that way is further than three tenths of the extent.
pub open spec fn in_center(r: Area, x: int, y: int) -> bool {
    let (dir, before) = nearest_edge(r, x, y);
    let (d, e) = match dir {
        Dir::Row => (from_left(r, x), at_least_a_pixel(r.w)),
        Dir::Col => (from_top(r, y), at_least_a_pixel(r.h)),
    };
    10 * (if before {
        d
    } else {
        e - d
    }) > 3 * e
}

/// The half of the area at an edge.
pub open spec fn half(r: Area, dir: Dir, before: bool) -> Area {
    match dir {
        Dir::Row => Area {
            x: if before {
                r.x
            } else {
                r.x + r.w / 2
            },
            w: r.w / 2,
            ..r
        },
        Dir::Col => Area {
            y: if before {
                r.y
            } else {
                r.y + r.h / 2
            },
            h: r.h / 2,
            ..r
        },
    }
}

/// Where a pane dragged to a point lands: the nearest edge of the pane there
/// splits it, its center swaps.
pub open spec fn landing(w: Win, x: int, y: int, dragged: PaneId) -> Landing {
    if y < chrome::TABBAR_H {
        Landing::NewTab
    } else {
        match chrome::pane_hit(fitting::panes_on_show(w), x, y) {
            None => Landing::Nothing,
            Some((target, r)) => if target == dragged {
                Landing::Nothing
            } else if in_center(r, x, y) {
                Landing::Swap { target, preview: r }
            } else {
                let (dir, before) = nearest_edge(r, x, y);
                Landing::Zone { target, dir, before, preview: half(r, dir, before) }
            },
        }
    }
}

fn pixel_or_more(v: i64) -> (r: i64)
    ensures
        r == at_least_a_pixel(v as int),
{
    if v < DIP {
        DIP
    } else {
        v
    }
}

fn clamp(v: i128, hi: i64) -> (r: i64)
    requires
        0 <= hi,
    ensures
        r == pane_tree::clamped(v as int, 0, hi as int),
{
    if v < 0 {
        0
    } else if v > hi as i128 {
        hi
    } else {
        v as i64
    }
}

fn edge(r: &RectF, x: i64, y: i64) -> (e: (Dir, bool, bool))
    requires
        pane_tree::rect_ok(r@),
    ensures
        (e.0, e.1) == nearest_edge(r@, x as int, y as int),
        e.2 == in_center(r@, x as int, y as int),
{
    let w: i64 = pixel_or_more(r.w);
    let h: i64 = pixel_or_more(r.h);
    let a: i64 = clamp(x as i128 - r.x as i128, w);
    let b: i64 = clamp(y as i128 - r.y as i128, h);
    let across: i64 = if w - a < a {
        w - a
    } else {
        a
    };
    let down: i64 = if h - b < b {
        h - b
    } else {
        b
    };
    assert(0 <= down * w <= 0x1_0000_0000 * 0x1_0000_0000 && 0 <= across * h <= 0x1_0000_0000
        * 0x1_0000_0000) by (nonlinear_arith)
        requires
            0 <= down <= 0x1_0000_0000,
            0 <= across <= 0x1_0000_0000,
            0 <= w <= 0x1_0000_0000,
            0 <= h <= 0x1_0000_0000,
    ;
    if (down as i128) * (w as i128) < (across as i128) * (h as i128) {
        (Dir::Col, h - b >= b, 10 * down > 3 * h)
    } else {
        (Dir::Row, w - a >= a, 10 * across > 3 * w)
    }
}

impl TermWindow {
    /// Where a pane dragged to a point would land.
    pub fn drop_target(&self, x: i64, y: i64, dragged: PaneId) -> (r: DropTarget)
        requires
            self.wf(),
        ensures
            r@ == landing(self@, x as int, y as int, dragged),
    {
        if y < chrome::TABBAR_H {
            return DropTarget::NewTab;
        }
        let (target, r) = match self.pane_at(x, y) {
            Some(p) => p,
            None => {
                return DropTarget::Nothing;
            },
        };
        if target == dragged {
            return DropTarget::Nothing;
        }
        let (dir, before, center) = edge(&r, x, y);
        if center {
            return DropTarget::Swap { target, preview: r };
        }
        let preview = match dir {
            Dir::Row => RectF {
                x: if before {
                    r.x
                } else {
                    r.x + r.w / 2
                },
                w: r.w / 2,
                ..r
            },
            Dir::Col => RectF {
                y: if before {
                    r.y
                } else {
                    r.y + r.h / 2
                },
                h: r.h / 2,
                ..r
            },
        };
        DropTarget::Zone { target, dir, before, preview }
    }
}

/// The tab with a pane moved beside another.
pub open spec fn moved_in_tab(
    t: TabModel,
    id: PaneId,
    target: PaneId,
    dir: Dir,
    before: bool,
) -> TabModel {
    if pane_tree::can_move(t.root, id, target) {
        TabModel {
            root: pane_tree::move_tree(t.root, id, target, dir, before),
            active: id,
            zoomed: None,
            ..t
        }
    } else {
        t
    }
}

/// The tab with two panes in each other's place.
pub open spec fn swapped_in_tab(t: TabModel, a: PaneId, b: PaneId) -> TabModel {
    if t.panes.dom().contains(a) && t.panes.dom().contains(b) {
        TabModel { root: pane_tree::swap_tree(t.root, a, b), ..t }
    } else {
        t
    }
}

/// A pane that moves within its tab leaves the tab in order, with the same
/// panes.
pub proof fn law_move_in_tab(t: TabModel, id: PaneId, target: PaneId, dir: Dir, before: bool)
    requires
        tabs::tab_wf(t),
    ensures
        tabs::tab_wf(moved_in_tab(t, id, target, dir, before)),
        moved_in_tab(t, id, target, dir, before).panes == t.panes,
{
    if pane_tree::can_move(t.root, id, target) {
        pane_tree::law_move(t.root, id, target, dir, before);
        let l = pane_tree::leaves(t.root);
        let mid = pane_tree::leaves(pane_tree::remove_tree(t.root, id));
        let after = pane_tree::leaves(pane_tree::move_tree(t.root, id, target, dir, before));
        tabs::lemma_taken_out(l, mid, id);
        assert(!mid.contains(id));
        tabs::lemma_put_beside(mid, after, target, id, before);
        let t1 = moved_in_tab(t, id, target, dir, before);
        assert forall|k: PaneId|
            #![trigger t1.panes.dom().contains(k)]
            #![trigger pane_tree::leaves(t1.root).contains(k)]
            t1.panes.dom().contains(k) <==> pane_tree::leaves(t1.root).contains(k) by {
            assert(after.contains(k) <==> mid.contains(k) || k == id);
            assert(mid.contains(k) <==> l.contains(k) && k != id);
            assert(t.panes.dom().contains(k) <==> l.contains(k));
        }
    }
}

/// Two panes that swap leave the tab in order, with the same panes.
pub proof fn law_swap_in_tab(t: TabModel, a: PaneId, b: PaneId)
    requires
        tabs::tab_wf(t),
    ensures
        tabs::tab_wf(swapped_in_tab(t, a, b)),
        swapped_in_tab(t, a, b).panes == t.panes,
{
    if t.panes.dom().contains(a) && t.panes.dom().contains(b) {
        pane_tree::law_swap(t.root, a, b);
        let l = pane_tree::leaves(t.root);
        let t1 = swapped_in_tab(t, a, b);
        let after = pane_tree::leaves(t1.root);
        assert(l.contains(a) && l.contains(b));
        assert(after.len() == l.len());
        assert forall|i: int| 0 <= i < l.len() implies after[i] == pane_tree::swap_id(
            l[i],
            a,
            b,
        ) by {}
        assert forall|k: PaneId|
            #![trigger t1.panes.dom().contains(k)]
            #![trigger pane_tree::leaves(t1.root).contains(k)]
            t1.panes.dom().contains(k) <==> pane_tree::leaves(t1.root).contains(k) by {
            assert(t.panes.dom().contains(k) <==> l.contains(k));
            let m = pane_tree::swap_id(k, a, b);
            if l.contains(k) {
                assert(l.contains(m));
                let i = choose|i: int| 0 <= i < l.len() && l[i] == m;
                assert(after[i] == k);
            }
            if after.contains(k) {
                let i = choose|i: int| 0 <= i < after.len() && after[i] == k;
                assert(l[i] == m);
                assert(l.contains(m));
            }
        }
        assert(after.contains(t.active)) by {
            assert(t.panes.dom().contains(t.active));
            assert(t1.panes.dom().contains(t.active));
        }
        if let Some(z) = t.zoomed {
            assert(l.contains(z));
            assert(t.panes.dom().contains(z));
            assert(t1.panes.dom().contains(z));
        }
    }
}

pub fn move_in_tab(t: &mut Tab, id: PaneId, target: PaneId, dir: Dir, before: bool)
    requires
        tabs::tab_wf(old(t)@),
    ensures
        tabs::tab_wf(final(t)@),
        final(t)@ == moved_in_tab(old(t)@, id, target, dir, before),
{
    proof {
        law_move_in_tab(t@, id, target, dir, before);
    }
    if pane_tree::move_pane(&mut t.root, id, target, dir, before) {
        t.active = id;
        t.zoomed = None;
    }
}

pub fn swap_in_tab(t: &mut Tab, a: PaneId, b: PaneId)
    requires
        tabs::tab_wf(old(t)@),
    ensures
        tabs::tab_wf(final(t)@),
        final(t)@ == swapped_in_tab(old(t)@, a, b),
{
    proof {
        law_swap_in_tab(t@, a, b);
        assert(t@.panes.dom().contains(a) <==> pane_tree::leaves(t@.root).contains(a));
        assert(t@.panes.dom().contains(b) <==> pane_tree::leaves(t@.root).contains(b));
    }
    pane_tree::swap(&mut t.root, a, b);
}

/// Near an edge of another pane a dragged pane lands at that edge: what is shown
/// is the half of the pane at it, and the distance to it is relatively no more than
/// that to any other edge, and outside the middle no more than three tenths.
pub proof fn law_lands_at_near_edge(r: Area, x: int, y: int)
    requires
        r.w >= 2 * DIP,
        r.h >= 2 * DIP,
        pane_tree::area_has(r, x, y),
    ensures
        ({
            let (dir, before) = nearest_edge(r, x, y);
            let (left, right) = (x - r.x, r.x + r.w - x);
            let (top, foot) = (y - r.y, r.y + r.h - y);
            &&& dir == Dir::Row && before ==> (!in_center(r, x, y) ==> 10 * left <= 3
                * r.w) && left <= right && left * r.h
                <= top * r.w && left * r.h <= foot * r.w
            &&& dir == Dir::Row && !before ==> (!in_center(r, x, y) ==> 10 * right <= 3
                * r.w) && right < left && right * r.h
                <= top * r.w && right * r.h <= foot * r.w
            &&& dir == Dir::Col && before ==> (!in_center(r, x, y) ==> 10 * top <= 3
                * r.h) && top <= foot && top * r.w < left
                * r.h && top * r.w < right * r.h
            &&& dir == Dir::Col && !before ==> (!in_center(r, x, y) ==> 10 * foot <= 3
                * r.h) && foot < top && foot * r.w
                < left * r.h && foot * r.w < right * r.h
        }),
{
    let (left, right) = (x - r.x, r.x + r.w - x);
    let (top, foot) = (y - r.y, r.y + r.h - y);
    let (w, h) = (r.w, r.h);
    assert(left <= right ==> left * h <= right * h) by (nonlinear_arith)
        requires
            h > 0,
    ;
    assert(right <= left ==> right * h <= left * h) by (nonlinear_arith)
        requires
            h > 0,
    ;
    assert(top <= foot ==> top * w <= foot * w) by (nonlinear_arith)
        requires
            w > 0,
    ;
    assert(foot <= top ==> foot * w <= top * w) by (nonlinear_arith)
        requires
            w > 0,
    ;
}

/// In the middle of a pane, farther than three tenths of the extent from every
/// edge, the two change places.
pub proof fn law_lands_in_center(r: Area, x: int, y: int)
    requires
        r.w >= 2 * DIP,
        r.h >= 2 * DIP,
        pane_tree::area_has(r, x, y),
        10 * (x - r.x) > 3 * r.w,
        10 * (r.x + r.w - x) > 3 * r.w,
        10 * (y - r.y) > 3 * r.h,
        10 * (r.y + r.h - y) > 3 * r.h,
    ensures
        in_center(r, x, y),
{
}

/// Within three tenths of the extent from some edge a pane does not change places,
/// but lands at an edge.
pub proof fn law_near_edge_is_no_center(r: Area, x: int, y: int)
    requires
        r.w >= 2 * DIP,
        r.h >= 2 * DIP,
        pane_tree::area_has(r, x, y),
        10 * (x - r.x) <= 3 * r.w || 10 * (r.x + r.w - x) <= 3 * r.w || 10 * (y - r.y) <= 3 * r.h
            || 10 * (r.y + r.h - y) <= 3 * r.h,
    ensures
        !in_center(r, x, y),
{
    let (left, right) = (x - r.x, r.x + r.w - x);
    let (top, foot) = (y - r.y, r.y + r.h - y);
    let (w, h) = (r.w, r.h);
    let across = if right < left {
        right
    } else {
        left
    };
    let down = if foot < top {
        foot
    } else {
        top
    };
    if down * w < across * h {
        assert(10 * across <= 3 * w ==> 10 * down <= 3 * h) by (nonlinear_arith)
            requires
                down * w < across * h,
                w > 0,
                h > 0,
        ;
    } else {
        assert(10 * down <= 3 * h ==> 10 * across <= 3 * w) by (nonlinear_arith)
            requires
                down * w >= across * h,
                w > 0,
                h > 0,
        ;
    }
}

/// Half of an area at an edge lies in it and touches that edge.
pub proof fn law_half_at_edge(r: Area, dir: Dir, before: bool)
    requires
        r.w >= 0,
        r.h >= 0,
    ensures
        ({
            let s = half(r, dir, before);
            &&& r.x <= s.x && s.x + s.w <= r.x + r.w && r.y <= s.y && s.y + s.h <= r.y + r.h
            &&& dir == Dir::Row ==> s.y == r.y && s.h == r.h && s.w == r.w / 2
            &&& dir == Dir::Col ==> s.x == r.x && s.w == r.w && s.h == r.h / 2
            &&& before ==> s.x == r.x && s.y == r.y
            &&& !before && dir == Dir::Row ==> s.x + s.w >= r.x + r.w - 1
            &&& !before && dir == Dir::Col ==> s.y + s.h >= r.y + r.h - 1
        }),
{
}

/// A pane that is dragged to the tab bar gets a tab of its own; over itself, and
/// over nothing, it stays; over another pane it lands beside that one, or in its
/// place.
pub proof fn law_landing(w: Win, x: int, y: int, dragged: PaneId)
    ensures
        y < 38 * DIP <==> landing(w, x, y, dragged) is NewTab,
        y >= 38 * DIP ==> match chrome::pane_hit(fitting::panes_on_show(w), x, y) {
            None => landing(w, x, y, dragged) is Nothing,
            Some((id, r)) => match landing(w, x, y, dragged) {
                Landing::Nothing => id == dragged,
                Landing::NewTab => false,
                Landing::Swap { target, preview } => id != dragged && target == id && preview == r
                    && in_center(r, x, y),
                Landing::Zone { target, dir, before, preview } => id != dragged && target == id && (
                dir,
                before,
                ) == nearest_edge(r, x, y) && preview == half(r, dir, before) && !in_center(r, x, y),
            },
        },
{
}

/// A pane that moves within its tab stands beside its target then, in the
/// direction and on the side asked for, and is the active one.
pub proof fn law_moved_pane_stands_beside(
    t: TabModel,
    id: PaneId,
    target: PaneId,
    dir: Dir,
    before: bool,
)
    requires
        tabs::tab_wf(t),
        t.panes.dom().contains(id),
        t.panes.dom().contains(target),
        id != target,
    ensures
        ({
            let r = moved_in_tab(t, id, target, dir, before);
            &&& before ==> pane_tree::beside_in(r.root, id, target, dir)
            &&& !before ==> pane_tree::beside_in(r.root, target, id, dir)
            &&& r.active == id
            &&& r.zoomed is None
        }),
{
    assert(pane_tree::leaves(t.root).contains(id));
    assert(pane_tree::leaves(t.root).contains(target));
    pane_tree::law_move(t.root, id, target, dir, before);
    pane_tree::law_split_direction(
        pane_tree::remove_tree(t.root, id),
        target,
        dir,
        id,
        before,
    );
}

/// Panes that change places do just that: where one was the other is, and the
/// areas on the screen stay as they were.
pub proof fn law_swapped_panes(t: TabModel, a: PaneId, b: PaneId, i: int)
    requires
        tabs::tab_wf(t),
        t.panes.dom().contains(a),
        t.panes.dom().contains(b),
        0 <= i < pane_tree::leaves(t.root).len(),
    ensures
        ({
            let l = pane_tree::leaves(t.root);
            let m = pane_tree::leaves(swapped_in_tab(t, a, b).root);
            &&& m.len() == l.len()
            &&& l[i] == a ==> m[i] == b
            &&& l[i] == b ==> m[i] == a
            &&& l[i] != a && l[i] != b ==> m[i] == l[i]
        }),
        swapped_in_tab(t, a, b).active == t.active,
{
    pane_tree::law_swap(t.root, a, b);
}

} // verus!
