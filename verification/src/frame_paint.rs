//! The marks that draw a window: its bar, its panes, what is dragged, and the
//! overlays.
use vstd::prelude::*;
use crate::bar_paint;
use crate::chrome;
use crate::fitting;
use crate::overlay_paint;
use crate::paint;
use crate::paint::{Drawn, Face, Mark};
use crate::palette::Rgb;
use crate::pane_tree;
use crate::pane_tree::{Area, Layout, PaneId, RectF, DIP};
use crate::rearrange;
use crate::rearrange::{DropTarget, Landing};
use crate::sheet_paint;
use crate::tabs;
use crate::tabs::{Pane, PaneKind, TabModel};
use crate::tones;
use crate::tones::Tone;
use crate::window;
use crate::window::{Drag, DragModel, TermWindow, Win};

verus! {

/// What is drawn from outside the window's own state.
pub struct Look {
    /// The tabs' titles.
    pub titles: Vec<String>,
    pub maximized: bool,
    /// The ground of a terminal.
    pub ground: Rgb,
    /// How dark panes without the focus are, in thousandths.
    pub dim: u16,
    /// The user's own key bindings.
    pub binds: Vec<String>,
    /// The Alt chords released to the shell.
    pub passthrough: Vec<String>,
}

/// How dark panes without the focus are drawn: 0.8 at most.
pub open spec fn veil(dim: u16) -> u16 {
    if dim > 800 {
        800
    } else {
        dim
    }
}

/// The first `n` dividers.
pub open spec fn divider_marks(g: Seq<pane_tree::Gutter>, n: int) -> Seq<Drawn>
    decreases n,
{
    if n <= 0 || n > g.len() {
        Seq::empty()
    } else {
        divider_marks(g, n - 1).push(Drawn::Fill(g[n - 1].rect, tones::full(Tone::Divider)))
    }
}

/// What a pane shows: a terminal its cells and images, dimmed where another
/// pane has the focus; a browser its toolbar.
pub open spec fn kind_marks(
    p: Pane,
    r: Area,
    multi: bool,
    active: bool,
    focused: bool,
    ground: Rgb,
    dim: u16,
) -> Seq<Drawn> {
    let c = chrome::content_area(r, multi);
    match p.kind {
        PaneKind::Term(_) => seq![
            Drawn::Grid { pane: p.id, at: c, focused: focused && active },
            Drawn::Images { pane: p.id, at: c },
        ] + if multi && !active && veil(dim) > 0 {
            seq![Drawn::Fill(r, tones::wash(Tone::Black, veil(dim) as int))]
        } else {
            Seq::empty()
        },
        PaneKind::Browser(_) => bar_paint::toolbar_marks(c, ground),
    }
}

/// A pane: its title bar where there are several, what it shows, and a frame
/// around the active one of several.
pub open spec fn pane_marks(
    p: Pane,
    r: Area,
    multi: bool,
    active: bool,
    focused: bool,
    ground: Rgb,
    dim: u16,
) -> Seq<Drawn> {
    (if multi {
        bar_paint::title_marks(r, tabs::pane_title(p), active)
    } else {
        Seq::empty()
    }) + kind_marks(p, r, multi, active, focused, ground, dim) + if multi && active {
        seq![Drawn::Frame(r, 1536, tones::wash(Tone::Accent, 900))]
    } else {
        Seq::empty()
    }
}

/// The first `n` panes on show.
pub open spec fn panes_marks(w: Win, t: TabModel, ground: Rgb, dim: u16, n: int) -> Seq<Drawn>
    decreases n,
{
    let v = fitting::panes_on_show(w);
    if n <= 0 || n > v.len() {
        Seq::empty()
    } else {
        let (id, r) = v[n - 1];
        panes_marks(w, t, ground, dim, n - 1) + pane_marks(
            t.panes[id],
            r,
            fitting::titled(w),
            id == t.active,
            w.focused,
            ground,
            dim,
        )
    }
}

/// Where a dragged pane would land.
pub open spec fn landing_marks(l: Landing, width: int) -> Seq<Drawn> {
    match l {
        Landing::Zone { preview, .. } => seq![
            Drawn::Fill(preview, tones::wash(Tone::Accent, 250)),
            Drawn::Frame(preview, 2 * DIP as int, tones::wash(Tone::Accent, 900)),
        ],
        Landing::Swap { preview, .. } => seq![
            Drawn::Frame(preview, 3 * DIP as int, tones::wash(Tone::Accent, 900)),
        ],
        Landing::NewTab => seq![
            Drawn::Fill(
                paint::edges(0, 0, width, chrome::TABBAR_H as int),
                tones::wash(Tone::Accent, 180),
            ),
        ],
        Landing::Nothing => Seq::empty(),
    }
}

/// The chip that follows the pointer with the dragged pane's title.
pub open spec fn chip_marks(x: int, y: int, title: Seq<char>) -> Seq<Drawn> {
    let chip = paint::edges(x + 10 * DIP, y + 8 * DIP, x + 150 * DIP, y + 30 * DIP);
    seq![
        Drawn::Rounded(chip, 4 * DIP as int, tones::wash(Tone::TabInactive, 950)),
        Drawn::Text(
            title,
            Face::Ui,
            bar_paint::inset(chip, 8 * DIP as int, 0, 4 * DIP as int, 0),
            tones::full(Tone::TabTextActive),
        ),
    ]
}

/// A pane dragged by its title bar.
pub open spec fn dragged_marks(w: Win, t: TabModel) -> Seq<Drawn> {
    match w.drag {
        DragModel::Pane { id, cur, live, .. } => if live {
            landing_marks(
                rearrange::landing(w, cur.0 as int, cur.1 as int, id),
                window::bar_of(w).width as int,
            ) + if t.panes.dom().contains(id) {
                chip_marks(cur.0 as int, cur.1 as int, tabs::pane_title(t.panes[id]))
            } else {
                Seq::empty()
            }
        } else {
            Seq::empty()
        },
        _ => Seq::empty(),
    }
}

/// The content of the active pane, where it is on show.
pub open spec fn active_content(w: Win) -> Option<Area> {
    match window::current(w) {
        Some(t) => match pane_tree::area_of(fitting::panes_on_show(w), t.active) {
            Some(r) => Some(chrome::content_area(r, fitting::titled(w))),
            None => None,
        },
        None => None,
    }
}

/// The search bar and the hints, in the active pane.
pub open spec fn inner_marks(w: Win) -> Seq<Drawn> {
    match active_content(w) {
        Some(c) => (match w.search {
            Some(s) => overlay_paint::search_marks(c, s),
            None => Seq::empty(),
        }) + match w.hints {
            Some(h) => overlay_paint::hints_marks(
                c,
                window::cell_of(w),
                h.matches,
                h.typed,
                h.matches.len() as int,
            ),
            None => Seq::empty(),
        },
        None => Seq::empty(),
    }
}

/// The palette, the list of shortcuts and the announcement, over the window.
pub open spec fn outer_marks(w: Win, binds: Seq<String>, passthrough: Seq<String>) -> Seq<Drawn> {
    let width = window::bar_of(w).width as int;
    (match w.palette {
        Some(p) => overlay_paint::palette_marks(p, width),
        None => Seq::empty(),
    }) + (if w.cheatsheet {
        sheet_paint::sheet_marks(width, client_height(w), binds, passthrough)
    } else {
        Seq::empty()
    }) + match w.toast {
        Some(t) => overlay_paint::toast_marks(t, width),
        None => Seq::empty(),
    }
}

/// The height of the window.
pub open spec fn client_height(w: Win) -> int {
    chrome::length_of(w.frame.height as int, w.frame.dpi)
}

/// The active tab: its dividers, its panes, what is dragged, and the overlays
/// on top.
pub open spec fn content_marks(w: Win, t: TabModel, k: Look) -> Seq<Drawn> {
    divider_marks(fitting::gutters_on_show(w), fitting::gutters_on_show(w).len() as int)
        + panes_marks(w, t, k.ground, k.dim, fitting::panes_on_show(w).len() as int)
        + dragged_marks(w, t) + inner_marks(w) + outer_marks(w, k.binds@, k.passthrough@)
}

/// The window: its ground, its bar, and the active tab.
pub open spec fn frame_marks(w: Win, k: Look) -> Seq<Drawn> {
    let width = window::bar_of(w).width as int;
    seq![
        Drawn::Fill(
            paint::edges(0, 0, width, client_height(w)),
            tones::full(Tone::ChromeBg),
        ),
    ] + bar_paint::bar_marks(w, bar_paint::texts(k.titles@), k.maximized) + match window::current(
        w,
    ) {
        Some(t) => content_marks(w, t, k),
        None => Seq::empty(),
    }
}

proof fn lemma_one_by_one(
    head: Seq<Drawn>,
    a: Seq<Drawn>,
    b: Seq<Drawn>,
    c: Seq<Drawn>,
    d: Seq<Drawn>,
    e: Seq<Drawn>,
)
    ensures
        head + a + b + c + d + e == head + (a + b + c + d + e),
{
    assert(head + a + b + c + d + e =~= head + (a + b + c + d + e));
}

fn put_pane(
    v: &mut Vec<Mark>,
    p: &Pane,
    r: &RectF,
    multi: bool,
    active: bool,
    focused: bool,
    look: &Look,
)
    requires
        pane_tree::rect_ok(r@),
    ensures
        paint::drawing(final(v)@) == paint::drawing(old(v)@) + pane_marks(
            *p,
            r@,
            multi,
            active,
            focused,
            look.ground,
            look.dim,
        ),
{
    let ghost before = paint::drawing(v@);
    let c = chrome::content_rect(*r, multi);
    if multi {
        bar_paint::put_title(v, r, p.title(), active);
    }
    match &p.kind {
        PaneKind::Term(_) => {
            paint::put(v, Mark::Grid { pane: p.id, at: c, focused: focused && active });
            paint::put(v, Mark::Images { pane: p.id, at: c });
            let dim: u16 = if look.dim > 800 {
                800
            } else {
                look.dim
            };
            if multi && !active && dim > 0 {
                paint::put(v, Mark::Fill(*r, tones::tint(Tone::Black, dim)));
            }
        },
        PaneKind::Browser(_) => {
            bar_paint::put_toolbar(v, &c, look.ground);
        },
    }
    if multi && active {
        paint::put(v, Mark::Frame(*r, 1536, tones::tint(Tone::Accent, 900)));
    }
    assert(paint::drawing(v@) =~= before + pane_marks(
        *p,
        r@,
        multi,
        active,
        focused,
        look.ground,
        look.dim,
    ));
}

fn put_dividers(v: &mut Vec<Mark>, d: &Vec<pane_tree::Divider>)
    ensures
        paint::drawing(final(v)@) == paint::drawing(old(v)@) + divider_marks(
            pane_tree::gutters(d@),
            d@.len() as int,
        ),
{
    let ghost before = paint::drawing(v@);
    let ghost g = pane_tree::gutters(d@);
    let mut i: usize = 0;
    assert(before =~= before + divider_marks(g, 0));
    while i < d.len()
        invariant
            i <= d@.len(),
            g == pane_tree::gutters(d@),
            paint::drawing(v@) == before + divider_marks(g, i as int),
        decreases d@.len() - i,
    {
        paint::put(v, Mark::Fill(d[i].rect, tones::tint(Tone::Divider, 1000)));
        assert(g[i as int] == d@[i as int]@);
        i += 1;
        assert(paint::drawing(v@) =~= before + divider_marks(g, i as int));
    }
}

fn put_landing(v: &mut Vec<Mark>, l: DropTarget, width: i64)
    requires
        0 <= width <= pane_tree::MAX_EXTENT,
    ensures
        paint::drawing(final(v)@) == paint::drawing(old(v)@) + landing_marks(l@, width as int),
{
    let ghost before = paint::drawing(v@);
    match l {
        DropTarget::Zone { preview, .. } => {
            paint::put(v, Mark::Fill(preview, tones::tint(Tone::Accent, 250)));
            paint::put(v, Mark::Frame(preview, 2 * DIP, tones::tint(Tone::Accent, 900)));
        },
        DropTarget::Swap { preview, .. } => {
            paint::put(v, Mark::Frame(preview, 3 * DIP, tones::tint(Tone::Accent, 900)));
        },
        DropTarget::NewTab => {
            let bar = paint::rect(0, 0, width, chrome::TABBAR_H);
            paint::put(v, Mark::Fill(bar, tones::tint(Tone::Accent, 180)));
        },
        DropTarget::Nothing => {},
    }
    assert(paint::drawing(v@) =~= before + landing_marks(l@, width as int));
}

fn put_chip(v: &mut Vec<Mark>, x: i64, y: i64, title: String)
    requires
        chrome::point_ok(x as int, y as int),
    ensures
        paint::drawing(final(v)@) == paint::drawing(old(v)@) + chip_marks(
            x as int,
            y as int,
            title@,
        ),
{
    let ghost before = paint::drawing(v@);
    let chip = paint::rect(x + 10 * DIP, y + 8 * DIP, x + 150 * DIP, y + 30 * DIP);
    paint::put(v, Mark::Rounded(chip, 4 * DIP, tones::tint(Tone::TabInactive, 950)));
    let at = bar_paint::inside(&chip, 8 * DIP, 0, 4 * DIP, 0);
    paint::put(v, Mark::Text(title, Face::Ui, at, tones::tint(Tone::TabTextActive, 1000)));
    assert(paint::drawing(v@) =~= before + chip_marks(x as int, y as int, title@));
}

impl TermWindow {
    fn put_panes(&self, v: &mut Vec<Mark>, panes: &Vec<(PaneId, RectF)>, look: &Look)
        requires
            self.wf(),
            window::current(self@) is Some,
            pane_tree::placed(panes@) == fitting::panes_on_show(self@),
            pane_tree::rects_ok(fitting::panes_on_show(self@)),
        ensures
            paint::drawing(final(v)@) == paint::drawing(old(v)@) + panes_marks(
                self@,
                window::current(self@)->0,
                look.ground,
                look.dim,
                panes@.len() as int,
            ),
    {
        let ghost before = paint::drawing(v@);
        let ghost w = self@;
        let ghost t = window::current(w)->0;
        let tab = &self.tabs[self.active];
        let multi = self.is_multi();
        assert(w.tabs[self.active as int] == self.tabs@[self.active as int]@);
        let mut i: usize = 0;
        assert(before =~= before + panes_marks(w, t, look.ground, look.dim, 0));
        while i < panes.len()
            invariant
                i <= panes@.len(),
                w == self@,
                window::current(w) == Some(t),
                tab@ == t,
                tabs::tab_wf(t),
                multi == fitting::titled(w),
                pane_tree::placed(panes@) == fitting::panes_on_show(w),
                pane_tree::rects_ok(fitting::panes_on_show(w)),
                paint::drawing(v@) == before + panes_marks(
                    w,
                    t,
                    look.ground,
                    look.dim,
                    i as int,
                ),
            decreases panes@.len() - i,
        {
            let (id, r) = panes[i];
            let ghost shown = fitting::panes_on_show(w);
            assert(shown[i as int] == pane_tree::placed(panes@)[i as int]);
            assert(shown[i as int] == (id, r@));
            proof {
                fitting::lemma_shown(t, window::pane_area(w), i as int);
            }
            if let Some(p) = tab.pane(id) {
                put_pane(v, p, &r, multi, id == tab.active, self.focused, look);
            }
            i += 1;
            assert(paint::drawing(v@) =~= before + panes_marks(
                w,
                t,
                look.ground,
                look.dim,
                i as int,
            ));
        }
    }

    fn put_dragged(&self, v: &mut Vec<Mark>, width: i64)
        requires
            self.wf(),
            window::current(self@) is Some,
            bar_paint::drag_near(self@),
            width == window::bar_of(self@).width,
            0 <= width <= pane_tree::MAX_EXTENT,
        ensures
            paint::drawing(final(v)@) == paint::drawing(old(v)@) + dragged_marks(
                self@,
                window::current(self@)->0,
            ),
    {
        let ghost before = paint::drawing(v@);
        assert(self@.tabs[self.active as int] == self.tabs@[self.active as int]@);
        match &self.drag {
            Drag::Pane { id, cur, live, .. } => {
                if *live {
                    let l = self.drop_target(cur.0, cur.1, *id);
                    put_landing(v, l, width);
                    if let Some(p) = self.tabs[self.active].pane(*id) {
                        put_chip(v, cur.0, cur.1, p.title());
                    }
                }
            },
            _ => {},
        }
        assert(paint::drawing(v@) =~= before + dragged_marks(self@, window::current(self@)->0));
    }

    /// The content of the active pane.
    fn content(&self) -> (r: Option<RectF>)
        requires
            self.wf(),
        ensures
            match r {
                Some(c) => active_content(self@) == Some(c@) && chrome::near(c@),
                None => active_content(self@) is None,
            },
    {
        match self.layout() {
            Some(lay) => {
                assert(self@.tabs[self.active as int] == self.tabs@[self.active as int]@);
                match lay.rect_of(self.tabs[self.active].active) {
                    Some(r) => Some(chrome::content_rect(r, self.is_multi())),
                    None => None,
                }
            },
            None => None,
        }
    }

    fn put_inner(&self, v: &mut Vec<Mark>)
        requires
            self.wf(),
            self@.hints matches Some(h) ==> overlay_paint::hints_fit(h.matches),
        ensures
            paint::drawing(final(v)@) == paint::drawing(old(v)@) + inner_marks(self@),
    {
        let ghost before = paint::drawing(v@);
        if let Some(c) = self.content() {
            if let Some(s) = &self.search {
                overlay_paint::put_search(v, &c, s);
            }
            let ghost mid = paint::drawing(v@);
            if let Some(h) = &self.hints {
                overlay_paint::put_hints(v, &c, self.cell_size(), h);
            }
            assert(paint::drawing(v@) =~= before + inner_marks(self@));
        }
        assert(paint::drawing(v@) =~= before + inner_marks(self@));
    }

    fn put_outer(&self, v: &mut Vec<Mark>, width: i64, look: &Look)
        requires
            self.wf(),
            width == window::bar_of(self@).width,
            0 <= width <= pane_tree::MAX_EXTENT,
            look.binds@.len() <= sheet_paint::MAX_BINDS,
        ensures
            paint::drawing(final(v)@) == paint::drawing(old(v)@) + outer_marks(
                self@,
                look.binds@,
                look.passthrough@,
            ),
    {
        let ghost before = paint::drawing(v@);
        if let Some(p) = &self.palette {
            overlay_paint::put_palette(v, p, width);
        }
        if self.cheatsheet {
            let height: i64 = chrome::units_of(self.frame.height as i32, self.frame.dpi);
            sheet_paint::put_sheet(
                v,
                width,
                height,
                look.binds.as_slice(),
                look.passthrough.as_slice(),
            );
        }
        if let Some(t) = &self.toast {
            overlay_paint::put_toast(v, t, width);
        }
        assert(paint::drawing(v@) =~= before + outer_marks(
            self@,
            look.binds@,
            look.passthrough@,
        ));
    }

    fn put_content(&self, v: &mut Vec<Mark>, lay: &Layout, width: i64, look: &Look)
        requires
            self.wf(),
            window::current(self@) is Some,
            pane_tree::placed(lay.panes@) == fitting::panes_on_show(self@),
            pane_tree::gutters(lay.dividers@) == fitting::gutters_on_show(self@),
            pane_tree::rects_ok(fitting::panes_on_show(self@)),
            width == window::bar_of(self@).width,
            0 <= width <= pane_tree::MAX_EXTENT,
            look.binds@.len() <= sheet_paint::MAX_BINDS,
            bar_paint::drag_near(self@),
            self@.hints matches Some(h) ==> overlay_paint::hints_fit(h.matches),
        ensures
            paint::drawing(final(v)@) == paint::drawing(old(v)@) + content_marks(
                self@,
                window::current(self@)->0,
                *look,
            ),
    {
        let ghost w = self@;
        let ghost t = window::current(w)->0;
        let ghost head = paint::drawing(v@);
        put_dividers(v, &lay.dividers);
        self.put_panes(v, &lay.panes, look);
        self.put_dragged(v, width);
        self.put_inner(v);
        self.put_outer(v, width, look);
        proof {
            assert(fitting::gutters_on_show(w).len() == lay.dividers@.len());
            assert(fitting::panes_on_show(w).len() == lay.panes@.len());
            lemma_one_by_one(
                head,
                divider_marks(fitting::gutters_on_show(w), lay.dividers@.len() as int),
                panes_marks(w, t, look.ground, look.dim, lay.panes@.len() as int),
                dragged_marks(w, t),
                inner_marks(w),
                outer_marks(w, look.binds@, look.passthrough@),
            );
        }
    }

    /// Draw the window.
    pub fn draw_frame(&self, look: &Look) -> (v: Vec<Mark>)
        requires
            self.wf(),
            look.titles@.len() == self.tabs@.len(),
            look.binds@.len() <= sheet_paint::MAX_BINDS,
            bar_paint::drag_near(self@),
            self@.hints matches Some(h) ==> overlay_paint::hints_fit(h.matches),
        ensures
            paint::drawing(v@) == frame_marks(self@, *look),
    {
        let width: i64 = self.bar().width;
        let height: i64 = chrome::units_of(self.frame.height as i32, self.frame.dpi);
        let mut v: Vec<Mark> = Vec::new();
        let ground = paint::rect(0, 0, width, height);
        paint::put(&mut v, Mark::Fill(ground, tones::tint(Tone::ChromeBg, 1000)));
        let mut bar = self.draw_tab_bar(&look.titles, look.maximized);
        let ghost first = v@;
        let ghost second = bar@;
        v.append(&mut bar);
        proof {
            assert(paint::drawing(first) =~= seq![
                Drawn::Fill(
                    paint::edges(0, 0, width as int, height as int),
                    tones::full(Tone::ChromeBg),
                ),
            ]);
            assert(paint::drawing(v@) =~= paint::drawing(first) + paint::drawing(second));
        }
        let ghost head = paint::drawing(v@);
        if let Some(lay) = self.layout() {
            self.put_content(&mut v, &lay, width, look);
        } else {
            assert(head =~= head + Seq::<Drawn>::empty());
        }
        v
    }
}

/// Without a tab only the ground and the bar are drawn.
pub proof fn law_empty_window_is_bare(w: Win, k: Look)
    requires
        window::current(w) is None,
    ensures
        frame_marks(w, k).len() == 1 + bar_paint::bar_marks(
            w,
            bar_paint::texts(k.titles@),
            k.maximized,
        ).len(),
{
}

/// A terminal is drawn in the content of its pane, with the cursor of the focus
/// just where it is the active pane of the focused window; the pane beside it is
/// dimmed, by no more than eight tenths, and never the active one.
pub proof fn law_terminal_is_drawn(
    p: Pane,
    r: Area,
    multi: bool,
    active: bool,
    focused: bool,
    ground: Rgb,
    dim: u16,
)
    requires
        p.kind is Term,
    ensures
        ({
            let v = kind_marks(p, r, multi, active, focused, ground, dim);
            let c = chrome::content_area(r, multi);
            &&& v[0] matches Drawn::Grid { pane, at, focused: f } && pane == p.id && at == c && f == (
            focused && active)
            &&& v[1] matches Drawn::Images { pane, at } && pane == p.id && at == c
            &&& !multi || active || dim == 0 ==> v.len() == 2
            &&& multi && !active && dim > 0 ==> v.len() == 3 && (v[2] matches Drawn::Fill(a, q) && a
                == r && q.color == tones::color_of(Tone::Black) && q.alpha <= 800 && q.alpha <= dim && (
            dim <= 800 ==> q.alpha == dim) && q.alpha > 0)
        }),
{
}

/// One pane of several has its title above it, and the active one a frame around
/// it; a pane alone has neither.
pub proof fn law_pane_is_framed(
    p: Pane,
    r: Area,
    multi: bool,
    active: bool,
    focused: bool,
    ground: Rgb,
    dim: u16,
)
    ensures
        ({
            let v = pane_marks(p, r, multi, active, focused, ground, dim);
            let k = kind_marks(p, r, multi, active, focused, ground, dim);
            &&& !multi ==> v == k
            &&& multi ==> v.len() == 4 + k.len() + (if active {
                1int
            } else {
                0
            }) && v.subrange(4, 4int + k.len()) == k && (v[2] matches Drawn::Text(t, _, a, _) && t
                == tabs::pane_title(p) && a.y == r.y)
            &&& multi && active ==> (v.last() matches Drawn::Frame(a, t, q) && a == r && t == 1536
                && q.color == tones::color_of(Tone::Accent))
        }),
{
    let v = pane_marks(p, r, multi, active, focused, ground, dim);
    let k = kind_marks(p, r, multi, active, focused, ground, dim);
    if multi {
        assert(v.subrange(4, 4int + k.len()) =~= k);
    } else {
        assert(v =~= k);
    }
}

/// Every pane on show is drawn in its own area, as active just where it is the
/// active pane of the tab.
pub proof fn law_panes_are_drawn(w: Win, t: TabModel, ground: Rgb, dim: u16, n: int, i: int)
    requires
        0 <= i < n <= fitting::panes_on_show(w).len(),
    ensures
        ({
            let v = panes_marks(w, t, ground, dim, n);
            let (id, r) = fitting::panes_on_show(w)[i];
            let m = pane_marks(
                t.panes[id],
                r,
                fitting::titled(w),
                id == t.active,
                w.focused,
                ground,
                dim,
            );
            exists|k: int| 0 <= k && k + m.len() <= v.len() && #[trigger] v.subrange(k, k + m.len()) == m
        }),
    decreases n,
{
    let (id, r) = fitting::panes_on_show(w)[i];
    let m = pane_marks(
        t.panes[id],
        r,
        fitting::titled(w),
        id == t.active,
        w.focused,
        ground,
        dim,
    );
    let v = panes_marks(w, t, ground, dim, n);
    let before = panes_marks(w, t, ground, dim, n - 1);
    if i == n - 1 {
        let k = before.len() as int;
        assert(v.subrange(k, k + m.len()) =~= m);
    } else {
        law_panes_are_drawn(w, t, ground, dim, n - 1, i);
        let k = choose|k: int|
            0 <= k && k + m.len() <= before.len() && #[trigger] before.subrange(k, k + m.len()) == m;
        assert(v.subrange(k, k + m.len()) =~= before.subrange(k, k + m.len()));
    }
}

/// Every divider is drawn in its gap.
pub proof fn law_dividers_are_drawn(g: Seq<pane_tree::Gutter>, n: int, i: int)
    requires
        0 <= i < n <= g.len(),
    ensures
        divider_marks(g, n).len() == n,
        divider_marks(g, n)[i] == Drawn::Fill(g[i].rect, tones::full(Tone::Divider)),
    decreases n,
{
    reveal_with_fuel(divider_marks, 2);
    if n > 1 {
        law_dividers_are_drawn(g, n - 1, if i < n - 1 {
            i
        } else {
            0
        });
    }
}

/// Where a dragged pane would land is shown: the half that it takes is filled and
/// framed, a swap is framed, a tab of its own lights the bar.
pub proof fn law_landing_is_shown(l: Landing, width: int)
    ensures
        l matches Landing::Zone { preview, .. } ==> landing_marks(l, width).len() == 2 && (
        landing_marks(l, width)[0] matches Drawn::Fill(a, p) && a == preview && p.alpha < 500) && (
        landing_marks(l, width)[1] matches Drawn::Frame(a, _, _) && a == preview),
        l matches Landing::Swap { preview, .. } ==> landing_marks(l, width).len() == 1 && (
        landing_marks(l, width)[0] matches Drawn::Frame(a, _, _) && a == preview),
        l is NewTab ==> landing_marks(l, width).len() == 1 && (
        landing_marks(l, width)[0] matches Drawn::Fill(a, _) && a.x == 0 && a.y == 0 && a.w == width
            && a.h == 38 * 1024),
        l is Nothing ==> landing_marks(l, width).len() == 0,
{
}

/// The chip of a dragged pane hangs to the lower right of the pointer and shows
/// the pane's title.
pub proof fn law_chip_follows_pointer(x: int, y: int, title: Seq<char>)
    ensures
        ({
            let v = chip_marks(x, y, title);
            &&& v.len() == 2
            &&& v[0] matches Drawn::Rounded(a, _, _) && a.x == x + 10 * 1024 && a.y == y + 8 * 1024
                && a.w == 140 * 1024 && a.h == 22 * 1024
            &&& v[1] matches Drawn::Text(t, _, a, _) && t == title && a.x == x + 18 * 1024 && a.y == y
                + 8 * 1024
        }),
{
}

/// The window is drawn from the bottom up: its ground, the bar, dividers and
/// panes, what is dragged, what lies over the active pane, what lies over all.
pub proof fn law_frame_order(w: Win, k: Look)
    ensures
        ({
            let v = frame_marks(w, k);
            let bar = bar_paint::bar_marks(w, bar_paint::texts(k.titles@), k.maximized);
            let b = 1 + bar.len();
            &&& v[0] matches Drawn::Fill(a, p) && a.x == 0 && a.y == 0 && a.w == window::bar_of(w).width
                && a.h == client_height(w) && p == tones::full(Tone::ChromeBg)
            &&& v.subrange(1, b as int) == bar
            &&& window::current(w) matches Some(t) ==> ({
                let g = fitting::gutters_on_show(w);
                let n = fitting::panes_on_show(w).len() as int;
                let dividers = divider_marks(g, g.len() as int);
                let panes = panes_marks(w, t, k.ground, k.dim, n);
                let p = b + dividers.len();
                let d = p + panes.len();
                let i = d + dragged_marks(w, t).len();
                let o = i + inner_marks(w).len();
                &&& v.subrange(b as int, p as int) == dividers
                &&& v.subrange(p as int, d as int) == panes
                &&& v.subrange(d as int, i as int) == dragged_marks(w, t)
                &&& v.subrange(i as int, o as int) == inner_marks(w)
                &&& v.skip(o as int) == outer_marks(w, k.binds@, k.passthrough@)
            })
        }),
{
    let v = frame_marks(w, k);
    let bar = bar_paint::bar_marks(w, bar_paint::texts(k.titles@), k.maximized);
    let b = 1 + bar.len();
    assert(v.subrange(1, b as int) =~= bar);
    if let Some(t) = window::current(w) {
        let g = fitting::gutters_on_show(w);
        let n = fitting::panes_on_show(w).len() as int;
        let dividers = divider_marks(g, g.len() as int);
        let panes = panes_marks(w, t, k.ground, k.dim, n);
        let p = b + dividers.len();
        let d = p + panes.len();
        let i = d + dragged_marks(w, t).len();
        let o = i + inner_marks(w).len();
        assert(v.subrange(b as int, p as int) =~= dividers);
        assert(v.subrange(p as int, d as int) =~= panes);
        assert(v.subrange(d as int, i as int) =~= dragged_marks(w, t));
        assert(v.subrange(i as int, o as int) =~= inner_marks(w));
        assert(v.skip(o as int) =~= outer_marks(w, k.binds@, k.passthrough@));
    }
}

/// Overlays are drawn just while they are open.
pub proof fn law_overlays_are_drawn(w: Win, binds: Seq<String>, passthrough: Seq<String>)
    ensures
        w.palette is None && !w.cheatsheet && w.toast is None ==> outer_marks(
            w,
            binds,
            passthrough,
        ).len() == 0,
        !w.cheatsheet && w.toast is None ==> (w.palette matches Some(p) ==> outer_marks(
            w,
            binds,
            passthrough,
        ) == overlay_paint::palette_marks(p, window::bar_of(w).width as int)),
        w.palette is None && w.cheatsheet && w.toast is None ==> outer_marks(w, binds, passthrough)
            == sheet_paint::sheet_marks(
            window::bar_of(w).width as int,
            client_height(w),
            binds,
            passthrough,
        ),
        w.palette is None && !w.cheatsheet ==> (w.toast matches Some(t) ==> outer_marks(
            w,
            binds,
            passthrough,
        ) == overlay_paint::toast_marks(t, window::bar_of(w).width as int)),
        w.search is None && w.hints is None ==> inner_marks(w).len() == 0,
        active_content(w) matches Some(c) ==> (w.hints is None ==> (w.search matches Some(s)
            ==> inner_marks(w) == overlay_paint::search_marks(c, s))),
{
    let v = outer_marks(w, binds, passthrough);
    if let Some(p) = w.palette {
        assert(!w.cheatsheet && w.toast is None ==> v =~= overlay_paint::palette_marks(
            p,
            window::bar_of(w).width as int,
        ));
    }
    if w.palette is None && w.cheatsheet && w.toast is None {
        assert(v =~= sheet_paint::sheet_marks(
            window::bar_of(w).width as int,
            client_height(w),
            binds,
            passthrough,
        ));
    }
    if let Some(t) = w.toast {
        assert(w.palette is None && !w.cheatsheet ==> v =~= overlay_paint::toast_marks(
            t,
            window::bar_of(w).width as int,
        ));
    }
    if let Some(c) = active_content(w) {
        if let Some(s) = w.search {
            assert(w.hints is None ==> inner_marks(w) =~= overlay_paint::search_marks(c, s));
        }
    }
}

/// The active pane's overlays lie in what it shows, below its title.
pub proof fn law_overlays_lie_in_pane(w: Win, t: TabModel, r: Area)
    requires
        window::current(w) == Some(t),
        pane_tree::area_of(fitting::panes_on_show(w), t.active) == Some(r),
        r.h >= 22 * 1024,
    ensures
        active_content(w) matches Some(c) && c.x == r.x && c.w == r.w && c.y + c.h == r.y + r.h
            && c.y == r.y + (if fitting::titled(w) {
            22528int
        } else {
            0
        }),
{
}

} // verus!
