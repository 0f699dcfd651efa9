//! Geometry of a window: the tab bar with its caption buttons, pane titles,
//! browser toolbars, and what lies under a point.
use vstd::prelude::*;
use crate::pane_tree;
use crate::pane_tree::{Area, Gutter, Layout, PaneId, RectF, DIP};
use crate::tabs::CellSize;

verus! {

/// Height of the tab bar.
pub const TABBAR_H: i64 = 38 * DIP;

/// Height of a browser's toolbar.
pub const TOOLBAR_H: i64 = 34 * DIP;

/// Space between a pane's edge and its cells.
pub const PANE_PAD: i64 = 2 * DIP;

/// Height of a pane's title bar, shown only where a tab has several panes.
pub const PANE_TITLE_H: i64 = 22 * DIP;

pub const TAB_MAX_W: i64 = 220 * DIP;

pub const TAB_MIN_W: i64 = 90 * DIP;

/// Width kept for the button that opens a tab.
pub const PLUS_W: i64 = 28 * DIP;

/// Distance between buttons of a toolbar.
pub const BTN_W: i64 = 30 * DIP;

/// Width of a caption button.
pub const CAPTION_W: i64 = 46 * DIP;

/// Units of length in an inch: 96 device-independent pixels.
pub const INCH: i64 = 96 * DIP;

/// Most tabs in one window.
pub const MAX_TABS: usize = 0x1000_0000;

/// Fewest pixels to the inch.
pub const MIN_DPI: u32 = 24;

/// Most pixels to the inch.
pub const MAX_DPI: u32 = 0xffff;

/// Whether `dpi` is a resolution a screen can have.
pub open spec fn dpi_ok(dpi: u32) -> bool {
    MIN_DPI <= dpi <= MAX_DPI
}

/// The length of `px` pixels, rounded down.
pub open spec fn length_of(px: int, dpi: u32) -> int {
    px * INCH / (dpi as int)
}

pub fn units_of(px: i32, dpi: u32) -> (r: i64)
    requires
        dpi_ok(dpi),
    ensures
        r == length_of(px as int, dpi),
        -0x1000_0000_0000 <= r <= 0x1000_0000_0000,
        0 <= px <= 0xffff ==> 0 <= r <= pane_tree::MAX_EXTENT,
{
    let n: i64 = px as i64 * INCH;
    let d: i64 = dpi as i64;
    proof {
        lemma_length(px as int, dpi);
    }
    if n >= 0 {
        n / d
    } else {
        let m: i64 = -n + (d - 1);
        proof {
            lemma_floor(n as int, d as int);
        }
        -(m / d)
    }
}

/// Division of a negative number, rounded down.
pub proof fn lemma_floor(n: int, d: int)
    requires
        n < 0,
        d > 0,
    ensures
        n / d == -((-n + (d - 1)) / d),
{
    let q = (-n + (d - 1)) / d;
    let r = (-n + (d - 1)) % d;
    assert(n == (-q) * d + (d - 1 - r)) by (nonlinear_arith)
        requires
            q == (-n + (d - 1)) / d,
            r == (-n + (d - 1)) % d,
            d > 0,
    ;
    assert(0 <= r < d) by (nonlinear_arith)
        requires
            r == (-n + (d - 1)) % d,
            d > 0,
    ;
    vstd::arithmetic::div_mod::lemma_fundamental_div_mod_converse(n, d, -q, d - 1 - r);
}

proof fn lemma_length(px: int, dpi: u32)
    requires
        dpi_ok(dpi),
        i32::MIN <= px <= i32::MAX,
    ensures
        -0x1000_0000_0000 <= length_of(px, dpi) <= 0x1000_0000_0000,
        0 <= px <= 0xffff ==> 0 <= length_of(px, dpi) <= pane_tree::MAX_EXTENT,
{
    let n = px * INCH;
    let d = dpi as int;
    assert(n == px * 98304);
    assert(n == d * (n / d) + n % d && 0 <= n % d < d) by (nonlinear_arith)
        requires
            d > 0,
    ;
    let q = n / d;
    assert(-0x1000_0000_0000 <= q <= 0x1000_0000_0000) by (nonlinear_arith)
        requires
            24 <= d,
            n - d < d * q <= n,
            -0x8000_0000 * 98304 <= n <= 0x8000_0000 * 98304,
    ;
    if 0 <= px <= 0xffff {
        assert(0 <= q <= 0x1_0000_0000) by (nonlinear_arith)
            requires
                24 <= d,
                n - d < d * q <= n,
                0 <= n <= 0xffff * 98304,
        ;
    }
}

/// `v` as a whole number of pixels, rounded to the nearest (a half away from
/// zero), and kept in the range of a coordinate.
pub open spec fn pixels_of(v: int, dpi: u32) -> int {
    let m = 2 * v * dpi;
    let r = if m >= 0 {
        (m + INCH) / (2 * INCH)
    } else {
        -((-m + INCH) / (2 * INCH))
    };
    pane_tree::clamped(r, i32::MIN as int, i32::MAX as int)
}

pub fn px_of(v: i64, dpi: u32) -> (r: i32)
    requires
        dpi_ok(dpi),
    ensures
        r == pixels_of(v as int, dpi),
{
    let w: i128 = 2 * (v as i128);
    let d: i128 = dpi as i128;
    assert(-0x1000_0000_0000_0000_0000_0000 <= w * d <= 0x1000_0000_0000_0000_0000_0000)
        by (nonlinear_arith)
        requires
            -0x1_0000_0000_0000_0000 <= w <= 0x1_0000_0000_0000_0000,
            0 <= d <= 0xffff,
    ;
    let m: i128 = w * d;
    let r: i128 = if m >= 0 {
        (m + 98304) / 196608
    } else {
        -((-m + 98304) / 196608)
    };
    if r < i32::MIN as i128 {
        i32::MIN
    } else if r > i32::MAX as i128 {
        i32::MAX
    } else {
        r as i32
    }
}

/// The part of a pane below its title bar, where title bars are shown.
pub open spec fn content_area(r: Area, multi: bool) -> Area {
    if multi {
        Area {
            y: r.y + PANE_TITLE_H,
            h: if r.h < PANE_TITLE_H {
                0
            } else {
                r.h - PANE_TITLE_H
            },
            ..r
        }
    } else {
        r
    }
}

/// An area whose corners, and points near them, are in range.
pub open spec fn near(a: Area) -> bool {
    &&& 0 <= a.w <= pane_tree::MAX_EXTENT
    &&& 0 <= a.h <= pane_tree::MAX_EXTENT
    &&& -0x2000_0000_0000_0000 <= a.x <= 0x2000_0000_0000_0000
    &&& -0x2000_0000_0000_0000 <= a.y <= 0x2000_0000_0000_0000
}

pub fn content_rect(r: RectF, multi: bool) -> (c: RectF)
    requires
        pane_tree::rect_ok(r@),
    ensures
        c@ == content_area(r@, multi),
        near(c@),
{
    if multi {
        let h: i64 = r.h - PANE_TITLE_H;
        RectF {
            x: r.x,
            y: r.y + PANE_TITLE_H,
            w: r.w,
            h: if h < 0 {
                0
            } else {
                h
            },
        }
    } else {
        r
    }
}

/// The close glyph of a pane's title bar.
pub open spec fn close_area(r: Area) -> Area {
    Area { x: r.x + r.w - 22 * DIP, y: r.y, w: 20 * DIP as int, h: PANE_TITLE_H as int }
}

pub fn title_close_rect(r: RectF) -> (c: RectF)
    requires
        pane_tree::rect_ok(r@),
    ensures
        c@ == close_area(r@),
{
    RectF { x: r.x + r.w - 22 * DIP, y: r.y, w: 20 * DIP, h: PANE_TITLE_H }
}

/// What the tab bar depends on.
#[derive(Clone, Copy, PartialEq, Eq, Debug, Structural)]
pub struct Bar {
    /// Width of the window.
    pub width: i64,
    /// How many tabs there are.
    pub tabs: usize,
    /// The window draws its own caption buttons.
    pub framed: bool,
}

pub open spec fn bar_ok(b: Bar) -> bool {
    0 <= b.width <= pane_tree::MAX_EXTENT && b.tabs <= MAX_TABS
}

/// Width of one tab: what is left of the bar in equal parts, within limits.
pub open spec fn tab_extent(b: Bar) -> int {
    let left = b.width - PLUS_W - 16 * DIP - if b.framed {
        3 * CAPTION_W
    } else {
        0
    };
    let avail = if left < 50 * DIP {
        50 * DIP
    } else {
        left
    };
    let n = if b.tabs == 0 {
        1
    } else {
        b.tabs as int
    };
    pane_tree::clamped(avail / n, TAB_MIN_W as int, TAB_MAX_W as int)
}

/// Where the tab `i` stands.
pub open spec fn tab_area(b: Bar, i: int) -> Area {
    Area {
        x: 8 * DIP + i * tab_extent(b),
        y: 6 * DIP as int,
        w: tab_extent(b) - 4 * DIP,
        h: TABBAR_H - 10 * DIP,
    }
}

/// The button that opens a tab.
pub open spec fn plus_area(b: Bar) -> Area {
    Area {
        x: 8 * DIP + b.tabs * tab_extent(b) + 2 * DIP,
        y: 8 * DIP as int,
        w: PLUS_W - 6 * DIP,
        h: TABBAR_H - 14 * DIP,
    }
}

/// The caption button that is `k`-th from the right edge.
pub open spec fn caption_area(width: int, k: int) -> Area {
    Area { x: width - k * CAPTION_W, y: 0, w: CAPTION_W as int, h: TABBAR_H - 6 * DIP }
}

/// Index of the first tab under the point, from the tab `i` on.
pub open spec fn tab_hit_from(b: Bar, x: int, y: int, i: int) -> Option<int>
    decreases b.tabs - i,
{
    if i < 0 || i >= b.tabs {
        None
    } else if pane_tree::area_has(tab_area(b, i), x, y) {
        Some(i)
    } else {
        tab_hit_from(b, x, y, i + 1)
    }
}

/// The tab under the point.
pub open spec fn tab_hit(b: Bar, x: int, y: int) -> Option<int> {
    if y >= TABBAR_H {
        None
    } else {
        tab_hit_from(b, x, y, 0)
    }
}

/// Where among the tabs a point of the bar stands, no further than `most`.
pub open spec fn tab_slot(b: Bar, x: int, most: int) -> int {
    let k = (x - 8 * DIP) / tab_extent(b);
    pane_tree::clamped(k, 0, most)
}

impl Bar {
    pub fn tab_width(&self) -> (r: i64)
        requires
            bar_ok(*self),
        ensures
            r == tab_extent(*self),
            TAB_MIN_W <= r <= TAB_MAX_W,
    {
        let caption: i64 = if self.framed {
            3 * CAPTION_W
        } else {
            0
        };
        let left: i64 = self.width - PLUS_W - 16 * DIP - caption;
        let avail: i64 = if left < 50 * DIP {
            50 * DIP
        } else {
            left
        };
        let n: i64 = if self.tabs == 0 {
            1
        } else {
            self.tabs as i64
        };
        let w: i64 = avail / n;
        if w < TAB_MIN_W {
            TAB_MIN_W
        } else if w > TAB_MAX_W {
            TAB_MAX_W
        } else {
            w
        }
    }

    pub fn tab_rect(&self, i: usize) -> (r: RectF)
        requires
            bar_ok(*self),
            i <= self.tabs,
        ensures
            r@ == tab_area(*self, i as int),
            near(r@),
            0 <= r.x <= 0x1_0000_0000_0000,
    {
        let tw: i64 = self.tab_width();
        let k: i64 = i as i64;
        assert(0 <= k * tw <= 0x1000_0000 * 225280) by (nonlinear_arith)
            requires
                0 <= k <= 0x1000_0000,
                0 <= tw <= 225280,
        ;
        RectF { x: 8 * DIP + k * tw, y: 6 * DIP, w: tw - 4 * DIP, h: TABBAR_H - 10 * DIP }
    }

    pub fn plus_rect(&self) -> (r: RectF)
        requires
            bar_ok(*self),
        ensures
            r@ == plus_area(*self),
    {
        let t = self.tab_rect(self.tabs);
        RectF { x: t.x + 2 * DIP, y: 8 * DIP, w: PLUS_W - 6 * DIP, h: TABBAR_H - 14 * DIP }
    }

    /// Minimise, maximise and close.
    pub fn caption_buttons(&self) -> (r: (RectF, RectF, RectF))
        requires
            bar_ok(*self),
        ensures
            r.0@ == caption_area(self.width as int, 3),
            r.1@ == caption_area(self.width as int, 2),
            r.2@ == caption_area(self.width as int, 1),
    {
        let h: i64 = TABBAR_H - 6 * DIP;
        (
            RectF { x: self.width - 3 * CAPTION_W, y: 0, w: CAPTION_W, h },
            RectF { x: self.width - 2 * CAPTION_W, y: 0, w: CAPTION_W, h },
            RectF { x: self.width - CAPTION_W, y: 0, w: CAPTION_W, h },
        )
    }

    pub fn tab_at(&self, x: i64, y: i64) -> (r: Option<usize>)
        requires
            bar_ok(*self),
        ensures
            match r {
                Some(i) => tab_hit(*self, x as int, y as int) == Some(i as int) && i < self.tabs,
                None => tab_hit(*self, x as int, y as int) is None,
            },
    {
        if y >= TABBAR_H {
            return None;
        }
        let mut i: usize = 0;
        while i < self.tabs
            invariant
                i <= self.tabs,
                bar_ok(*self),
                y < TABBAR_H,
                tab_hit(*self, x as int, y as int) == tab_hit_from(
                    *self,
                    x as int,
                    y as int,
                    i as int,
                ),
            decreases self.tabs - i,
        {
            if self.tab_rect(i).contains(x, y) {
                return Some(i);
            }
            i += 1;
        }
        None
    }

    /// Where among the tabs a point of the bar stands.
    pub fn slot(&self, x: i64, most: usize) -> (r: usize)
        requires
            bar_ok(*self),
            most <= MAX_TABS,
            -0x1000_0000_0000_0000 <= x,
        ensures
            r == tab_slot(*self, x as int, most as int),
            r <= most,
    {
        let tw: i64 = self.tab_width();
        let from: i64 = x - 8 * DIP;
        if from < 0 {
            proof {
                lemma_slot_negative(from as int, tw as int);
            }
            return 0;
        }
        let k: i64 = from / tw;
        if k > most as i64 {
            most
        } else {
            k as usize
        }
    }
}

proof fn lemma_slot_negative(n: int, d: int)
    requires
        n < 0,
        d > 0,
    ensures
        n / d < 0,
{
    assert(n / d < 0) by (nonlinear_arith)
        requires
            n < 0,
            d > 0,
    ;
}

/// A drop on the tab bar of a window: where among its tabs, if it is on the
/// bar at all.
pub open spec fn insert_slot(b: Bar, x: int, y: int) -> Option<int> {
    if !(0 <= y < TABBAR_H) || x < 0 {
        None
    } else {
        Some(tab_slot(b, x, b.tabs as int))
    }
}

pub fn tabbar_insert_index(b: Bar, px: i32, py: i32, dpi: u32) -> (r: Option<usize>)
    requires
        bar_ok(b),
        dpi_ok(dpi),
    ensures
        match r {
            Some(i) => insert_slot(b, length_of(px as int, dpi), length_of(py as int, dpi)) == Some(
                i as int,
            ),
            None => insert_slot(b, length_of(px as int, dpi), length_of(py as int, dpi)) is None,
        },
{
    let x: i64 = units_of(px, dpi);
    let y: i64 = units_of(py, dpi);
    if y < 0 || y >= TABBAR_H || x < 0 {
        return None;
    }
    Some(b.slot(x, b.tabs))
}

/// The toolbar of a browser: back, forward, reload, the URL, developer tools,
/// close.
#[derive(Clone, Copy, PartialEq, Eq, Debug, Structural)]
pub struct BrowserChrome {
    pub toolbar: RectF,
    pub back: RectF,
    pub fwd: RectF,
    pub reload: RectF,
    pub dev: RectF,
    pub close: RectF,
    pub edit: RectF,
}

/// The button whose left edge is at `x`.
pub open spec fn button_area(x: int, y: int) -> Area {
    Area { x, y: y + 3 * DIP, w: BTN_W - 4 * DIP, h: TOOLBAR_H - 6 * DIP }
}

/// Whether `c` is the toolbar of a browser whose content is `r`.
pub open spec fn is_chrome(r: Area, c: BrowserChrome) -> bool {
    let edit_w = r.w - 5 * BTN_W - 12 * DIP;
    &&& c.toolbar@ == Area { h: TOOLBAR_H as int, ..r }
    &&& c.back@ == button_area(r.x + 4 * DIP, r.y)
    &&& c.fwd@ == button_area(r.x + 4 * DIP + BTN_W, r.y)
    &&& c.reload@ == button_area(r.x + 4 * DIP + 2 * BTN_W, r.y)
    &&& c.close@ == button_area(r.x + r.w - BTN_W, r.y)
    &&& c.dev@ == button_area(r.x + r.w - 2 * BTN_W, r.y)
    &&& c.edit@ == Area {
        x: r.x + 3 * BTN_W + 6 * DIP,
        y: r.y + 5 * DIP,
        w: if edit_w < 40 * DIP {
            40 * DIP as int
        } else {
            edit_w
        },
        h: TOOLBAR_H - 10 * DIP,
    }
}

fn button(x: i64, y: i64) -> (r: RectF)
    requires
        y + 3 * DIP <= i64::MAX,
    ensures
        r@ == button_area(x as int, y as int),
{
    RectF { x, y: y + 3 * DIP, w: BTN_W - 4 * DIP, h: TOOLBAR_H - 6 * DIP }
}

pub fn browser_chrome(r: RectF) -> (c: BrowserChrome)
    requires
        near(r@),
    ensures
        is_chrome(r@, c),
{
    let reload = button(r.x + 4 * DIP + 2 * BTN_W, r.y);
    let close = button(r.x + r.w - BTN_W, r.y);
    let dev = button(close.x - BTN_W, r.y);
    let w: i64 = dev.x - reload.x - reload.w - 12 * DIP;
    BrowserChrome {
        toolbar: RectF { x: r.x, y: r.y, w: r.w, h: TOOLBAR_H },
        back: button(r.x + 4 * DIP, r.y),
        fwd: button(r.x + 4 * DIP + BTN_W, r.y),
        reload,
        dev,
        close,
        edit: RectF {
            x: reload.x + reload.w + 6 * DIP,
            y: r.y + 5 * DIP,
            w: if w < 40 * DIP {
                40 * DIP
            } else {
                w
            },
            h: TOOLBAR_H - 10 * DIP,
        },
    }
}

/// The first pane under the point, and its area.
pub open spec fn pane_hit(panes: Seq<(PaneId, Area)>, x: int, y: int) -> Option<(PaneId, Area)>
    decreases panes.len(),
{
    if panes.len() == 0 {
        None
    } else if pane_tree::area_has(panes[0].1, x, y) {
        Some(panes[0])
    } else {
        pane_hit(panes.drop_first(), x, y)
    }
}

pub proof fn lemma_pane_hit(panes: Seq<(PaneId, Area)>, x: int, y: int)
    ensures
        match pane_hit(panes, x, y) {
            Some(p) => panes.contains(p) && pane_tree::area_has(p.1, x, y),
            None => forall|i: int|
                0 <= i < panes.len() ==> !pane_tree::area_has((#[trigger] panes[i]).1, x, y),
        },
    decreases panes.len(),
{
    if panes.len() > 0 && !pane_tree::area_has(panes[0].1, x, y) {
        let rest = panes.drop_first();
        lemma_pane_hit(rest, x, y);
        match pane_hit(rest, x, y) {
            Some(p) => {
                let i = choose|i: int| 0 <= i < rest.len() && rest[i] == p;
                assert(panes[i + 1] == p);
            },
            None => {
                assert forall|i: int| 0 <= i < panes.len() implies !pane_tree::area_has(
                    (#[trigger] panes[i]).1,
                    x,
                    y,
                ) by {
                    if i > 0 {
                        assert(panes[i] == rest[i - 1]);
                    }
                }
            },
        }
    } else if panes.len() > 0 {
        assert(panes[0] == panes.first());
    }
}

/// The first gutter under the point, with a halo that makes it easier to
/// grab.
pub open spec fn gutter_hit(g: Seq<Gutter>, x: int, y: int) -> Option<Gutter>
    decreases g.len(),
{
    if g.len() == 0 {
        None
    } else if in_halo(g[0].rect, x, y) {
        Some(g[0])
    } else {
        gutter_hit(g.drop_first(), x, y)
    }
}

pub open spec fn in_halo(a: Area, x: int, y: int) -> bool {
    &&& a.x - 2 * DIP <= x < a.x + a.w + 2 * DIP
    &&& a.y - 2 * DIP <= y < a.y + a.h + 2 * DIP
}

/// The pane under a point of a layout.
pub fn pane_at(lay: &Layout, x: i64, y: i64) -> (r: Option<(PaneId, RectF)>)
    ensures
        match r {
            Some(p) => {
                &&& pane_hit(pane_tree::placed(lay.panes@), x as int, y as int) == Some(
                    (p.0, p.1@),
                )
                &&& pane_tree::rects_ok(pane_tree::placed(lay.panes@)) ==> pane_tree::rect_ok(p.1@)
            },
            None => pane_hit(pane_tree::placed(lay.panes@), x as int, y as int) is None,
        },
{
    let ghost all = pane_tree::placed(lay.panes@);
    let mut i: usize = 0;
    assert(all.skip(0) =~= all);
    while i < lay.panes.len()
        invariant
            i <= lay.panes.len(),
            all == pane_tree::placed(lay.panes@),
            pane_hit(all, x as int, y as int) == pane_hit(all.skip(i as int), x as int, y as int),
        decreases lay.panes.len() - i,
    {
        let p = lay.panes[i];
        assert(all[i as int] == (p.0, p.1@));
        assert(all.skip(i as int)[0] == all[i as int]);
        assert(all.skip(i as int).drop_first() =~= all.skip(i + 1));
        if p.1.contains(x, y) {
            return Some(p);
        }
        i += 1;
    }
    None
}

/// The divider under a point of a layout, by its index.
pub fn divider_at(lay: &Layout, x: i64, y: i64) -> (r: Option<usize>)
    ensures
        match r {
            Some(i) => i < lay.dividers@.len() && gutter_hit(
                pane_tree::gutters(lay.dividers@),
                x as int,
                y as int,
            ) == Some(lay.dividers@[i as int]@),
            None => gutter_hit(pane_tree::gutters(lay.dividers@), x as int, y as int) is None,
        },
{
    let ghost all = pane_tree::gutters(lay.dividers@);
    let mut i: usize = 0;
    assert(all.skip(0) =~= all);
    while i < lay.dividers.len()
        invariant
            i <= lay.dividers.len(),
            all == pane_tree::gutters(lay.dividers@),
            gutter_hit(all, x as int, y as int) == gutter_hit(
                all.skip(i as int),
                x as int,
                y as int,
            ),
        decreases lay.dividers.len() - i,
    {
        let r = lay.dividers[i].rect;
        assert(all[i as int] == lay.dividers@[i as int]@);
        assert(all.skip(i as int)[0] == all[i as int]);
        assert(all.skip(i as int).drop_first() =~= all.skip(i + 1));
        let (px, py): (i128, i128) = (x as i128, y as i128);
        let (rx, ry): (i128, i128) = (r.x as i128, r.y as i128);
        let halo: i128 = 2048;
        if px >= rx - halo && px < rx + r.w as i128 + halo && py >= ry - halo && py < ry
            + r.h as i128 + halo {
            return Some(i);
        }
        i += 1;
    }
    None
}

/// A cell of the screen, and which half of it.
#[derive(Clone, Copy, PartialEq, Eq, Debug, Structural)]
pub struct CellSpot {
    pub col: u64,
    pub row: u64,
    pub right: bool,
}

/// Cells between the pane's edge and `d`, none for a point before it.
pub open spec fn cells_in(d: int, cell: int) -> int {
    if d < 0 {
        0
    } else {
        d / cell
    }
}

/// The cell of a terminal under a point.
pub open spec fn spot_under(pane: Area, x: int, y: int, cell: CellSize) -> CellSpot {
    let dx = x - pane.x - PANE_PAD;
    CellSpot {
        col: cells_in(dx, cell.w as int) as u64,
        row: cells_in(y - pane.y - PANE_PAD, cell.h as int) as u64,
        right: dx >= 0 && 2 * (dx % (cell.w as int)) >= cell.w,
    }
}

/// A point no further away than a rectangle can be.
pub open spec fn point_ok(x: int, y: int) -> bool {
    &&& -0x1000_0000_0000_0000 <= x <= 0x1000_0000_0000_0000
    &&& -0x1000_0000_0000_0000 <= y <= 0x1000_0000_0000_0000
}

/// The cell of a terminal under a point.
pub fn cell_at(pane: &RectF, x: i64, y: i64, cell: CellSize) -> (s: CellSpot)
    requires
        near(pane@),
        point_ok(x as int, y as int),
        crate::tabs::cell_ok(cell),
    ensures
        s == spot_under(pane@, x as int, y as int, cell),
{
    let dx: i64 = x - pane.x - PANE_PAD;
    let dy: i64 = y - pane.y - PANE_PAD;
    CellSpot {
        col: if dx < 0 {
            0
        } else {
            (dx / cell.w) as u64
        },
        row: if dy < 0 {
            0
        } else {
            (dy / cell.h) as u64
        },
        right: dx >= 0 && 2 * (dx % cell.w) >= cell.w,
    }
}

/// A length that comes from whole pixels goes back to them, and a longer one
/// never to fewer.
pub proof fn law_pixels_roundtrip(px: int, dpi: u32, v: int, w: int)
    requires
        24 <= dpi <= 49152,
        i32::MIN <= px <= i32::MAX,
        v <= w,
    ensures
        pixels_of(length_of(px, dpi), dpi) == px,
        pixels_of(v, dpi) <= pixels_of(w, dpi),
        length_of(96, 96) == 96 * 1024,
{
    let d = dpi as int;
    let n = px * 98304;
    let q = n / d;
    assert(n - d < d * q <= n) by (nonlinear_arith)
        requires
            q == n / d,
            d > 0,
    ;
    let m = 2 * q * d;
    assert(m == 2 * (d * q)) by (nonlinear_arith)
        requires
            m == 2 * q * d,
    ;
    assert(px >= 0 ==> d * q >= 0) by (nonlinear_arith)
        requires
            px >= 0 ==> d * q > -d,
            d > 0,
    ;
    assert(length_of(px, dpi) == q);
    if px >= 0 {
        assert((m + 98304) / 196608 == px);
    } else {
        assert(m < 0);
        assert((-m + 98304) / 196608 == -px);
    }
    assert(2 * v * d <= 2 * w * d) by (nonlinear_arith)
        requires
            v <= w,
            d > 0,
    ;
}

/// The content of a pane is all of it, or all below its title bar: at the foot
/// and at the sides they end together.
pub proof fn law_content_below_title(r: Area)
    requires
        r.h >= 22 * DIP,
    ensures
        content_area(r, false) == r,
        content_area(r, true).x == r.x && content_area(r, true).w == r.w,
        content_area(r, true).y == r.y + 22 * DIP,
        content_area(r, true).y + content_area(r, true).h == r.y + r.h,
        r.w >= 22 * DIP ==> {
            let c = close_area(r);
            &&& r.x <= c.x && c.x + c.w < r.x + r.w && c.x + c.w >= r.x + r.w - 2 * DIP
            &&& c.y == r.y && c.y + c.h == content_area(r, true).y
        },
{
}

/// The tabs stand in the bar from left to right in their order, all alike,
/// without touching; the button for a new one is behind the last. Each is
/// between 90 and 220 units wide, the gap included.
pub proof fn law_tabs_in_line(b: Bar, i: int, j: int)
    requires
        bar_ok(b),
        0 <= i < j <= b.tabs,
    ensures
        ({
            let (r, s) = (tab_area(b, i), tab_area(b, j));
            &&& 0 < r.x && r.x + r.w < s.x
            &&& r.w == s.w && r.y == s.y && r.h == s.h
            &&& 0 < r.y && r.y + r.h < TABBAR_H
            &&& 86 * DIP <= r.w <= 216 * DIP
            &&& r.x + r.w < plus_area(b).x
        }),
{
    let e = tab_extent(b);
    assert(e > 4 * DIP);
    assert((j - i) * e == j * e - i * e && (j - i) * e >= e && i * e >= 0) by (nonlinear_arith)
        requires
            j - i >= 1,
            i >= 0,
            e > 0,
    ;
    let n = b.tabs as int;
    assert((n - i) * e == n * e - i * e && (n - i) * e >= e) by (nonlinear_arith)
        requires
            n - i >= 1,
            e > 0,
    ;
}

/// While the window is wide enough for them, the tabs and the button for a new
/// one end before the caption buttons.
pub proof fn law_tabs_leave_room(b: Bar)
    requires
        bar_ok(b),
        b.framed,
        b.tabs > 0,
        b.tabs * 90 * DIP + 182 * DIP <= b.width,
    ensures
        plus_area(b).x + plus_area(b).w <= b.width - 138 * DIP,
{
    let left = b.width - PLUS_W - 16 * DIP - 3 * CAPTION_W;
    let n = b.tabs as int;
    let e = tab_extent(b);
    assert(left >= n * 90 * DIP);
    assert(n * (left / n) <= left && left / n >= 90 * 1024) by (nonlinear_arith)
        requires
            n > 0,
            left >= n * 90 * 1024,
    ;
    assert(n * e <= n * (left / n)) by (nonlinear_arith)
        requires
            e <= left / n,
            n > 0,
    ;
}

/// A point on a tab hits that tab, and a tab that is hit is under the point.
pub proof fn law_tab_hit(b: Bar, x: int, y: int, i: int)
    requires
        bar_ok(b),
        0 <= i < b.tabs,
    ensures
        pane_tree::area_has(tab_area(b, i), x, y) ==> tab_hit(b, x, y) == Some(i),
        tab_hit(b, x, y) == Some(i) ==> pane_tree::area_has(tab_area(b, i), x, y),
        y >= TABBAR_H ==> tab_hit(b, x, y) is None,
{
    lemma_tab_hit(b, x, y, 0, i);
}

proof fn lemma_tab_hit(b: Bar, x: int, y: int, k: int, i: int)
    requires
        bar_ok(b),
        0 <= k <= b.tabs,
        0 <= i < b.tabs,
    ensures
        k <= i && pane_tree::area_has(tab_area(b, i), x, y) ==> tab_hit_from(b, x, y, k) == Some(i),
        tab_hit_from(b, x, y, k) == Some(i) ==> pane_tree::area_has(tab_area(b, i), x, y),
    decreases b.tabs - k,
{
    if k < b.tabs {
        lemma_tab_hit(b, x, y, k + 1, i);
        if k < i {
            law_tabs_in_line(b, k, i);
        }
    }
}

/// The place of a point among the tabs counts whole tabs from the left; before
/// the first it is the first, beyond the last place it is that.
pub proof fn law_tab_slot(b: Bar, x: int, most: int, i: int)
    requires
        bar_ok(b),
        0 <= i,
        0 <= most,
    ensures
        tab_area(b, i).x <= x < tab_area(b, i + 1).x ==> tab_slot(b, x, most) == (if i <= most {
            i
        } else {
            most
        }),
        x < 8 * DIP ==> tab_slot(b, x, most) == 0,
        0 <= tab_slot(b, x, most) <= most,
{
    let e = tab_extent(b);
    let n = x - 8 * DIP;
    if tab_area(b, i).x <= x < tab_area(b, i + 1).x {
        assert(n / e == i) by (nonlinear_arith)
            requires
                i * e <= n < (i + 1) * e,
                e > 0,
        ;
    }
    if x < 8 * DIP {
        lemma_slot_negative(n, e);
    }
}

/// A drop counts only on the tab bar.
pub proof fn law_insert_slot(b: Bar, x: int, y: int)
    ensures
        insert_slot(b, x, y) is Some <==> 0 <= y < 38 * DIP && x >= 0,
        insert_slot(b, x, y) matches Some(i) ==> i == tab_slot(b, x, b.tabs as int),
{
}

/// The caption buttons end at the right edge: close is outermost, then maximise,
/// then minimise, side by side.
pub proof fn law_caption_buttons(width: int)
    ensures
        ({
            let (least, most, close) = (
                caption_area(width, 3),
                caption_area(width, 2),
                caption_area(width, 1),
            );
            &&& close.x + close.w == width
            &&& most.x + most.w == close.x
            &&& least.x + least.w == most.x
            &&& least.y == 0 && most.y == 0 && close.y == 0
            &&& least.h == most.h == close.h && 0 < close.h < TABBAR_H
        }),
{
}

/// The toolbar of a page has, from left to right, back, forward, reload, the URL,
/// the developer tools and close, inside it and without touching; it is as wide
/// as the page and above it.
pub proof fn law_toolbar_order(r: Area, c: BrowserChrome)
    requires
        is_chrome(r, c),
        r.w >= 210 * DIP,
    ensures
        c.toolbar@ == (Area { x: r.x, y: r.y, w: r.w, h: 34 * DIP as int }),
        r.x < c.back.x && c.back.x + c.back.w < c.fwd.x,
        c.fwd.x + c.fwd.w < c.reload.x && c.reload.x + c.reload.w < c.edit.x,
        c.edit.x + c.edit.w <= c.dev.x && c.dev.x + c.dev.w < c.close.x,
        c.close.x + c.close.w < r.x + r.w,
        r.y < c.back.y && c.back.y + c.back.h < r.y + 34 * DIP,
        r.y < c.edit.y && c.edit.y + c.edit.h < r.y + 34 * DIP,
        c.back.y == c.fwd.y == c.reload.y == c.dev.y == c.close.y,
{
}

/// What is hit is on show and under the point; what is not hit is not under it.
pub proof fn law_pane_hit(panes: Seq<(PaneId, Area)>, x: int, y: int)
    ensures
        match pane_hit(panes, x, y) {
            Some(p) => panes.contains(p) && pane_tree::area_has(p.1, x, y),
            None => forall|i: int|
                0 <= i < panes.len() ==> !pane_tree::area_has((#[trigger] panes[i]).1, x, y),
        },
    decreases panes.len(),
{
    if panes.len() > 0 {
        let rest = panes.drop_first();
        law_pane_hit(rest, x, y);
        if pane_tree::area_has(panes[0].1, x, y) {
            assert(panes[0] == pane_hit(panes, x, y)->0);
        } else {
            match pane_hit(rest, x, y) {
                Some(p) => {
                    let i = choose|i: int| 0 <= i < rest.len() && rest[i] == p;
                    assert(panes[i + 1] == p);
                },
                None => {
                    assert forall|i: int| 0 <= i < panes.len() implies !pane_tree::area_has(
                        (#[trigger] panes[i]).1,
                        x,
                        y,
                    ) by {
                        if i > 0 {
                            assert(panes[i] == rest[i - 1]);
                        }
                    }
                },
            }
        }
    }
}

/// A divider is hit on it and two units around it, and nowhere else.
pub proof fn law_gutter_hit(g: Seq<Gutter>, x: int, y: int)
    ensures
        match gutter_hit(g, x, y) {
            Some(d) => g.contains(d) && d.rect.x - 2048 <= x < d.rect.x + d.rect.w + 2048
                && d.rect.y - 2048 <= y < d.rect.y + d.rect.h + 2048,
            None => forall|i: int|
                0 <= i < g.len() ==> !pane_tree::area_has((#[trigger] g[i]).rect, x, y),
        },
    decreases g.len(),
{
    if g.len() > 0 {
        let rest = g.drop_first();
        law_gutter_hit(rest, x, y);
        if in_halo(g[0].rect, x, y) {
            assert(g[0] == gutter_hit(g, x, y)->0);
        } else {
            match gutter_hit(rest, x, y) {
                Some(p) => {
                    let i = choose|i: int| 0 <= i < rest.len() && rest[i] == p;
                    assert(g[i + 1] == p);
                },
                None => {
                    assert forall|i: int| 0 <= i < g.len() implies !pane_tree::area_has(
                        (#[trigger] g[i]).rect,
                        x,
                        y,
                    ) by {
                        if i > 0 {
                            assert(g[i] == rest[i - 1]);
                        }
                    }
                },
            }
        }
    }
}

/// The cell under a point is the one whose rectangle holds it, counted from
/// inside the padding; the point is in its right half or in its left.
pub proof fn law_cell_under_point(pane: Area, x: int, y: int, cell: CellSize)
    requires
        crate::tabs::cell_ok(cell),
        near(pane),
        point_ok(x, y),
        x >= pane.x + PANE_PAD,
        y >= pane.y + PANE_PAD,
    ensures
        ({
            let s = spot_under(pane, x, y, cell);
            let left = pane.x + PANE_PAD + s.col * cell.w;
            let top = pane.y + PANE_PAD + s.row * cell.h;
            &&& left <= x < left + cell.w
            &&& top <= y < top + cell.h
            &&& s.right <==> 2 * (x - left) >= cell.w
        }),
{
    let (dx, dy) = (x - pane.x - PANE_PAD, y - pane.y - PANE_PAD);
    let (w, h) = (cell.w as int, cell.h as int);
    let (q, r) = (dx / w, dy / h);
    assert(dx == w * q + dx % w && 0 <= dx % w < w && 0 <= q <= dx) by (nonlinear_arith)
        requires
            q == dx / w,
            w > 0,
            dx >= 0,
    ;
    assert(dy == h * r + dy % h && 0 <= dy % h < h && 0 <= r <= dy) by (nonlinear_arith)
        requires
            r == dy / h,
            h > 0,
            dy >= 0,
    ;
    assert(q * w == w * q && r * h == h * r) by (nonlinear_arith);
}

} // verus!
