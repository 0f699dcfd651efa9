//! Operations of a window on its tabs and panes: opening, closing, moving,
//! zooming, and fitting them to the window.
use vstd::prelude::*;
use crate::browser_pane;
use crate::chrome;
use crate::ctl;
use crate::ctl::CtlReq;
use crate::fitting;
use crate::pane_tree;
use crate::pane_tree::{Dir, PaneId};
use crate::tabs;
use crate::tabs::{CellSize, Pane, PaneKind, Tab, TabModel};
use crate::text;
use crate::window;
use crate::window::{Act, Job, PixelPoint, TermWindow, Win, Work};

verus! {

/// The window on the way to close a tab: the session is saved first, while the
/// tab is still there.
pub open spec fn closing(w: Win, idx: int) -> Win {
    if 0 <= idx < w.tabs.len() {
        window::did(window::did(w, Act::SaveSession), Act::CloseTab(idx as usize))
    } else {
        w
    }
}

/// The window after one of its tabs is gone: it closes with the last one, else
/// the tab in its place, or the last one, is shown.
pub open spec fn tab_gone(w: Win, idx: int) -> Win {
    let w1 = Win { tabs: w.tabs.remove(idx), ..w };
    if w1.tabs.len() == 0 {
        window::did(w1, Act::Destroy)
    } else {
        window::switched(
            w1,
            if w.active >= w1.tabs.len() {
                w1.tabs.len() - 1
            } else {
                w.active
            },
        )
    }
}

/// The window with a tab put in among the others, and shown.
pub open spec fn tab_put(w: Win, tab: TabModel, idx: int) -> Win {
    window::switched(Win { tabs: w.tabs.insert(idx, tab), ..w }, idx)
}

/// Where a tab is put that comes from elsewhere.
pub open spec fn put_index(w: Win, index: Option<usize>) -> int {
    match index {
        Some(i) if i < w.tabs.len() => i as int,
        _ => w.tabs.len() as int,
    }
}

/// The window with the active tab split and the new pane in it.
pub open spec fn pane_split(w: Win, dir: Dir, pane: Pane) -> Win {
    let w1 = match window::current(w) {
        Some(t) => window::with_current(
            w,
            TabModel { active: pane.id, ..tabs::with_pane(t, t.active, dir, pane) },
        ),
        None => w,
    };
    let w2 = window::did(w1, Act::Relayout);
    let w3 = if pane.kind is Browser {
        match window::current(w) {
            Some(_) => window::did(w2, Act::FocusUrl(pane.id)),
            None => w2,
        }
    } else {
        window::pane_focused(w2)
    };
    window::did(window::did(w3, Act::Invalidate), Act::Title)
}

/// The window after its active pane was closed, or the tab with it.
pub open spec fn active_closed(w: Win) -> Win {
    match window::current(w) {
        None => w,
        Some(t) => if tabs::can_leave(t, t.active) {
            let w1 = window::did(
                window::with_current(w, tabs::without_pane(t, t.active)),
                Act::Discard(t.active),
            );
            window::did(
                window::did(
                    window::pane_focused(window::did(w1, Act::Relayout)),
                    Act::Invalidate,
                ),
                Act::Title,
            )
        } else {
            closing(w, w.active)
        },
    }
}

/// The window after a pane was closed, in whichever tab it was.
pub open spec fn pane_closed(w: Win, id: PaneId) -> Win {
    match window::tab_with(w.tabs, id, 0) {
        None => w,
        Some(i) => {
            let t = w.tabs[i];
            if tabs::can_leave(t, id) {
                let w1 = window::did(
                    Win {
                        tabs: w.tabs.update(i, tabs::without_pane(t, id)),
                        focus_pane: if w.focus_pane == Some(id) {
                            None
                        } else {
                            w.focus_pane
                        },
                        ..w
                    },
                    Act::Discard(id),
                );
                let w2 = if i == w.active {
                    window::synced(window::did(w1, Act::Relayout))
                } else {
                    w1
                };
                window::did(window::did(w2, Act::Invalidate), Act::Title)
            } else {
                closing(w, i)
            }
        },
    }
}

/// The window with a pane of the active tab made active, where it was not.
pub open spec fn activated(w: Win, id: PaneId) -> Win {
    match window::current(w) {
        Some(t) if t.active != id => {
            let w1 = window::with_current(w, TabModel { active: id, ..t });
            window::did(window::did(window::synced(w1), Act::Title), Act::Invalidate)
        },
        _ => w,
    }
}

/// The window with its active pane zoomed, or no longer.
pub open spec fn zoom_toggled(w: Win) -> Win {
    let w1 = match window::current(w) {
        Some(t) => window::with_current(
            w,
            TabModel {
                zoomed: if t.zoomed is Some {
                    None
                } else {
                    Some(t.active)
                },
                ..t
            },
        ),
        None => w,
    };
    window::did(window::did(w1, Act::Relayout), Act::Invalidate)
}

/// The window with its active tab moved by one place, around the ends.
pub open spec fn tab_moved(w: Win, delta: int) -> Win {
    let n = w.tabs.len() as int;
    if n < 2 {
        w
    } else {
        let to = (w.active + delta) % n;
        window::did(
            Win {
                tabs: w.tabs.remove(w.active).insert(to, w.tabs[w.active]),
                active: to,
                ..w
            },
            Act::Invalidate,
        )
    }
}

/// The window on the way to give a tab a window of its own. With the only tab,
/// the window itself moves to where the tab was dropped.
pub open spec fn detaching(w: Win, idx: int, at: Option<PixelPoint>) -> Win {
    if !(0 <= idx < w.tabs.len()) {
        w
    } else if w.tabs.len() == 1 {
        match at {
            Some(p) => window::did(
                w,
                Act::MoveWindow { x: minus(p.x, 60), y: minus(p.y, 14) },
            ),
            None => w,
        }
    } else {
        window::did(w, Act::TearOut { tab: idx as usize, at })
    }
}

/// `a - b`, no less than the least coordinate.
pub open spec fn minus(a: i32, b: i32) -> i32 {
    if a - b < i32::MIN {
        i32::MIN
    } else {
        (a - b) as i32
    }
}

/// Font sizes that differ by less than a hundredth of a point are the same.
pub open spec fn same_size(a: int, b: int) -> bool {
    -10 < a - b < 10
}

/// The window with the font size of its active tab set: to the default, on
/// the default fonts, or to another, on fonts of the tab's own.
pub open spec fn font_set(w: Win, size: int) -> Win {
    let s = ctl::font_within(size);
    match window::current(w) {
        Some(t) if !same_size(s, t.font_size as int) => {
            let w1 = if same_size(s, w.settings.font_size as int) {
                window::with_current(w, TabModel { font_size: s as i32, cell: None, ..t })
            } else {
                window::did(
                    window::with_current(w, TabModel { font_size: s as i32, ..t }),
                    Act::BuildFonts { tab: w.active as usize, size: s as i32 },
                )
            };
            window::did(window::did(w1, Act::Relayout), Act::Invalidate)
        },
        _ => w,
    }
}

/// The window with a pane of its active tab moved to a tab of its own; nothing
/// where it has one already.
pub open spec fn pane_moved_out(w: Win, id: PaneId) -> Win {
    match window::current(w) {
        Some(t) if tabs::can_leave(t, id) => {
            let w1 = window::with_current(w, tabs::without_pane(t, id));
            let own = TabModel { cell: t.cell, ..tabs::single_tab(t.panes[id], t.font_size) };
            tab_put(w1, own, w.tabs.len() as int)
        },
        _ => w,
    }
}

/// The window with an announcement on show.
pub open spec fn announced(w: Win, t: Seq<char>) -> Win {
    window::did(window::did(Win { toast: Some(t), ..w }, Act::ToastTimer), Act::Invalidate)
}

impl TermWindow {
    /// Close a tab. The session is saved before anything changes.
    pub fn close_tab(&mut self, idx: usize)
        requires
            old(self).wf(),
        ensures
            final(self).wf(),
            final(self)@ == closing(old(self)@, idx as int),
    {
        if idx >= self.tabs.len() {
            return;
        }
        self.act(Act::SaveSession);
        self.act(Act::CloseTab(idx));
    }

    fn tab_left(&mut self)
        requires
            old(self).loose(),
        ensures
            final(self).wf(),
            final(self)@ == (if old(self)@.tabs.len() == 0 {
                window::did(old(self)@, Act::Destroy)
            } else {
                window::switched(
                    old(self)@,
                    if old(self)@.active >= old(self)@.tabs.len() {
                        old(self)@.tabs.len() - 1
                    } else {
                        old(self)@.active
                    },
                )
            }),
    {
        let n: usize = self.tabs.len();
        if n == 0 {
            self.act(Act::Destroy);
        } else {
            let ghost before = self@;
            let to: usize = if self.active >= n {
                n - 1
            } else {
                self.active
            };
            self.active = to;
            self.switch_tab(to);
            assert(window::switched(Win { active: to as int, ..before }, to as int)
                == window::switched(before, to as int));
        }
    }

    /// Let a tab go, intact: for another window, or for good.
    pub fn drop_tab(&mut self, idx: usize) -> (tab: Tab)
        requires
            old(self).wf(),
            idx < old(self)@.tabs.len(),
        ensures
            final(self).wf(),
            tab@ == old(self)@.tabs[idx as int],
            final(self)@ == tab_gone(old(self)@, idx as int),
    {
        let tab = self.tabs.remove(idx);
        assert(self@.tabs =~= old(self)@.tabs.remove(idx as int));
        assert(tab@ == old(self)@.tabs[idx as int]);
        assert forall|i: int| 0 <= i < self@.tabs.len() implies tabs::tab_wf(
            #[trigger] self@.tabs[i],
        ) by {
            assert(self@.tabs[i] == old(self)@.tabs[if i < idx { i } else { i + 1 }]);
        }
        self.tab_left();
        tab
    }

    /// Take a tab out for another window, with its pages hidden.
    pub fn take_tab(&mut self, idx: usize) -> (tab: Tab)
        requires
            old(self).wf(),
            idx < old(self)@.tabs.len(),
        ensures
            final(self).wf(),
            tab@ == tabs::shown_tab(old(self)@.tabs[idx as int], false),
            tabs::tab_wf(tab@),
            final(self)@ == tab_gone(old(self)@, idx as int),
    {
        let ghost t = self@.tabs[idx as int];
        assert(tabs::tab_wf(t));
        let mut tab = self.drop_tab(idx);
        tab.show_pages(false);
        tab
    }

    fn put_tab(&mut self, tab: Tab, idx: usize)
        requires
            old(self).wf(),
            tabs::tab_wf(tab@),
            idx <= old(self)@.tabs.len() < chrome::MAX_TABS,
        ensures
            final(self).wf(),
            final(self)@ == tab_put(old(self)@, tab@, idx as int),
    {
        let ghost before = self@;
        self.tabs.insert(idx, tab);
        assert(self@.tabs =~= before.tabs.insert(idx as int, tab@));
        assert forall|i: int| 0 <= i < self@.tabs.len() implies tabs::tab_wf(
            #[trigger] self@.tabs[i],
        ) by {
            if i != idx {
                assert(self@.tabs[i] == before.tabs[if i < idx { i } else { i - 1 }]);
            }
        }
        self.active = idx;
        self.switch_tab(idx);
    }

    /// Take a tab in, at a place among the others or behind them.
    pub fn adopt_tab(&mut self, tab: Tab, index: Option<usize>)
        requires
            old(self).wf(),
            tabs::tab_wf(tab@),
            old(self)@.tabs.len() < chrome::MAX_TABS,
        ensures
            final(self).wf(),
            final(self)@ == tab_put(old(self)@, tab@, put_index(old(self)@, index)),
    {
        let n: usize = self.tabs.len();
        let idx: usize = match index {
            Some(i) => if i < n {
                i
            } else {
                n
            },
            None => n,
        };
        self.put_tab(tab, idx);
    }

    /// Ask for a tab with the default profile.
    pub fn new_tab(&mut self)
        requires
            old(self).wf(),
        ensures
            final(self).wf(),
            final(self)@ == window::did(old(self)@, Act::NewTab(None)),
    {
        self.act(Act::NewTab(None));
    }

    /// Ask for a tab with a profile; nothing where there is no such profile.
    pub fn new_tab_with_profile(&mut self, idx: usize)
        requires
            old(self).wf(),
        ensures
            final(self).wf(),
            final(self)@ == profile_tab(old(self)@, idx),
    {
        if idx < self.settings.profiles {
            self.act(Act::NewTab(Some(idx)));
        }
    }

    /// A shell has been started for a new tab.
    pub fn tab_opened(&mut self, pane: Pane)
        requires
            old(self).wf(),
            old(self)@.tabs.len() < chrome::MAX_TABS,
        ensures
            final(self).wf(),
            final(self)@ == tab_put(
                old(self)@,
                tabs::single_tab(pane, old(self)@.settings.font_size),
                old(self)@.tabs.len() as int,
            ),
    {
        let n: usize = self.tabs.len();
        let tab = Tab::single(pane, self.settings.font_size);
        self.put_tab(tab, n);
    }

    /// A shell or a page has been started beside the active pane. A page
    /// begins in its URL bar, ready for an address.
    pub fn split(&mut self, dir: Dir, pane: Pane)
        requires
            old(self).wf(),
            window::current(old(self)@) matches Some(t) ==> !t.panes.dom().contains(pane.id)
                && pane_tree::leaves(t.root).len() < pane_tree::MAX_PANES,
        ensures
            final(self).wf(),
            final(self)@ == pane_split(old(self)@, dir, pane),
    {
        let ghost before = self@;
        let id: PaneId = pane.id;
        let page = matches!(pane.kind, PaneKind::Browser(_));
        let has_tab = self.active < self.tabs.len();
        if has_tab {
            let i: usize = self.active;
            assert(before.tabs[i as int] == self.tabs@[i as int]@);
            self.tabs[i].split(dir, pane);
            proof {
                self.lemma_one_tab(*old(self), i as int);
            }
        }
        self.act(Act::Relayout);
        if page {
            if has_tab {
                self.act(Act::FocusUrl(id));
            }
        } else {
            self.focus_active_pane();
        }
        self.act(Act::Invalidate);
        self.act(Act::Title);
    }

    pub fn close_active_pane(&mut self)
        requires
            old(self).wf(),
        ensures
            final(self).wf(),
            final(self)@ == active_closed(old(self)@),
    {
        let i: usize = self.active;
        if i >= self.tabs.len() {
            return;
        }
        let ghost before = self@;
        assert(before.tabs[i as int] == self.tabs@[i as int]@);
        let id: PaneId = self.tabs[i].active;
        let gone = self.tabs[i].remove(id);
        proof {
            self.lemma_one_tab(*old(self), i as int);
        }
        match gone {
            Some(_) => {
                self.act(Act::Discard(id));
                self.act(Act::Relayout);
                self.focus_active_pane();
                self.act(Act::Invalidate);
                self.act(Act::Title);
            },
            None => {
                assert(self@.tabs =~= before.tabs);
                self.close_tab(i);
            },
        }
    }

    pub fn close_pane_by_id(&mut self, id: PaneId)
        requires
            old(self).wf(),
        ensures
            final(self).wf(),
            final(self)@ == pane_closed(old(self)@, id),
    {
        let i: usize = match self.tab_of(id) {
            Some(i) => i,
            None => {
                return;
            },
        };
        let ghost before = self@;
        assert(before.tabs[i as int] == self.tabs@[i as int]@);
        let gone = self.tabs[i].remove(id);
        proof {
            self.lemma_one_tab(*old(self), i as int);
        }
        match gone {
            Some(_) => {
                if let Some(f) = self.focus_pane {
                    if f == id {
                        self.focus_pane = None;
                    }
                }
                self.act(Act::Discard(id));
                if i == self.active {
                    self.act(Act::Relayout);
                    self.sync_pane_focus();
                }
                self.act(Act::Invalidate);
                self.act(Act::Title);
            },
            None => {
                assert(self@.tabs =~= before.tabs);
                self.close_tab(i);
            },
        }
    }

    /// Make a pane of the active tab active.
    pub fn activate(&mut self, id: PaneId)
        requires
            old(self).wf(),
            window::current(old(self)@) matches Some(t) ==> t.panes.dom().contains(id),
        ensures
            final(self).wf(),
            final(self)@ == activated(old(self)@, id),
    {
        let i: usize = self.active;
        if i >= self.tabs.len() {
            return;
        }
        assert(self@.tabs[i as int] == self.tabs@[i as int]@);
        if self.tabs[i].active != id {
            set_active(&mut self.tabs[i], id);
            proof {
                self.lemma_one_tab(*old(self), i as int);
            }
            self.sync_pane_focus();
            self.act(Act::Title);
            self.act(Act::Invalidate);
        }
    }
}

pub(crate) fn set_active(t: &mut Tab, id: PaneId)
    requires
        tabs::tab_wf(old(t)@),
        old(t)@.panes.dom().contains(id),
    ensures
        tabs::tab_wf(final(t)@),
        final(t)@ == (TabModel { active: id, ..old(t)@ }),
{
    t.active = id;
}

/// A tab with a profile is asked for, where there is that profile.
pub open spec fn profile_tab(w: Win, idx: usize) -> Win {
    if idx < w.settings.profiles {
        window::did(w, Act::NewTab(Some(idx)))
    } else {
        w
    }
}

/// The pane beside the active one, that way.
pub open spec fn beside(w: Win, dx: int, dy: int) -> Option<PaneId> {
    match window::current(w) {
        Some(t) => pane_tree::neighbor_of(fitting::panes_on_show(w), t.active, dx, dy),
        None => None,
    }
}

/// The window with the focus moved to the pane beside the active one, if there
/// is one that way.
pub open spec fn focus_moved(w: Win, dx: int, dy: int) -> Win {
    match beside(w, dx, dy) {
        Some(id) => {
            let t = window::current(w)->0;
            let w1 = window::with_current(w, TabModel { active: id, ..t });
            window::did(window::did(window::pane_focused(w1), Act::Invalidate), Act::Title)
        },
        None => w,
    }
}

/// The first page among the panes of a tab, from the pane `i` on.
pub open spec fn page_from(t: TabModel, i: int) -> Option<PaneId>
    decreases pane_tree::leaves(t.root).len() - i,
{
    let l = pane_tree::leaves(t.root);
    if i < 0 || i >= l.len() {
        None
    } else if window::is_browser(t, l[i]) {
        Some(l[i])
    } else {
        page_from(t, i + 1)
    }
}

/// A request from a shell was carried out in the tab `i`.
pub open spec fn request_done(w: Win, i: int) -> Win {
    let w1 = if i == w.active {
        window::did(w, Act::Relayout)
    } else {
        w
    };
    window::did(w1, Act::Invalidate)
}

/// What a request from a shell does, and whether this window can serve it: the
/// page of the tab that the shell is in goes to an address, reloads, or shows
/// its tools. Where it has no page, an address opens one beside the shell.
pub open spec fn request_served(w: Win, pane: PaneId, verb: Seq<char>, arg: Seq<char>) -> (
    Win,
    bool,
) {
    match window::tab_with(w.tabs, pane, 0) {
        None => (w, false),
        Some(i) => match page_from(w.tabs[i], 0) {
            Some(b) => if verb == "browse"@ {
                (request_done(window::with_work(w, Work::Navigate(b, arg)), i), true)
            } else if verb == "reload"@ {
                (request_done(window::did(w, Act::Reload(b)), i), true)
            } else if verb == "devtools"@ {
                (request_done(window::did(w, Act::Devtools(b)), i), true)
            } else {
                (w, false)
            },
            None => if verb == "browse"@ {
                (
                    window::with_work(w, Work::Browse(pane, browser_pane::normalized(arg))),
                    true,
                )
            } else {
                (w, false)
            },
        },
    }
}

/// The window with a page opened beside a shell, which keeps the focus; in a
/// tab that is not on show, the page is hidden.
pub open spec fn page_beside(w: Win, target: PaneId, pane: Pane) -> Win {
    match window::tab_with(w.tabs, target, 0) {
        None => w,
        Some(i) => request_done(
            Win {
                tabs: w.tabs.update(
                    i,
                    tabs::with_pane(
                        w.tabs[i],
                        target,
                        Dir::Row,
                        tabs::shown_pane(pane, i == w.active),
                    ),
                ),
                ..w
            },
            i,
        ),
    }
}

/// `b` is the page `a` on the way to an address.
pub open spec fn navigated(a: Pane, b: Pane, url: Seq<char>) -> bool {
    &&& b.id == a.id
    &&& b.kind matches PaneKind::Browser(q)
    &&& a.kind matches PaneKind::Browser(p)
    &&& q.url@ == browser_pane::normalized(url)
    &&& q.pending_url@ == (if p.ready {
        p.pending_url@
    } else {
        browser_pane::normalized(url)
    })
    &&& q.title == p.title
    &&& q.ready == p.ready
    &&& q.visible == p.visible
}

impl TermWindow {
    /// Move the focus to the pane beside the active one: to the right, left,
    /// below or above.
    pub fn focus_dir(&mut self, dx: i32, dy: i32)
        requires
            old(self).wf(),
        ensures
            final(self).wf(),
            final(self)@ == focus_moved(old(self)@, dx as int, dy as int),
    {
        let lay = match self.layout() {
            Some(lay) => lay,
            None => {
                return;
            },
        };
        let i: usize = self.active;
        let ghost t = window::current(self@)->0;
        assert(t == self.tabs@[i as int]@);
        let to = pane_tree::neighbor(&lay, self.tabs[i].active, dx, dy);
        proof {
            let panes = fitting::panes_on_show(self@);
            pane_tree::lemma_neighbor_of(panes, t.active, dx as int, dy as int, to);
            if let Some(id) = to {
                let k = choose|k: int|
                    0 <= k < pane_tree::names(panes).len() && pane_tree::names(panes)[k] == id;
                fitting::lemma_shown(t, window::pane_area(self@), k);
            }
        }
        if let Some(id) = to {
            set_active(&mut self.tabs[i], id);
            proof {
                self.lemma_one_tab(*old(self), i as int);
            }
            self.focus_active_pane();
            self.act(Act::Invalidate);
            self.act(Act::Title);
        }
    }

    pub fn zoom_toggle(&mut self)
        requires
            old(self).wf(),
        ensures
            final(self).wf(),
            final(self)@ == zoom_toggled(old(self)@),
    {
        let i: usize = self.active;
        if i < self.tabs.len() {
            assert(self@.tabs[i as int] == self.tabs@[i as int]@);
            toggle_zoom(&mut self.tabs[i]);
            proof {
                self.lemma_one_tab(*old(self), i as int);
            }
        }
        self.act(Act::Relayout);
        self.act(Act::Invalidate);
    }

    /// Move the active tab one place to the right or, for `left`, to the left.
    pub fn move_tab(&mut self, left: bool)
        requires
            old(self).wf(),
        ensures
            final(self).wf(),
            final(self)@ == tab_moved(
                old(self)@,
                if left {
                    -1
                } else {
                    1
                },
            ),
    {
        let n: usize = self.tabs.len();
        if n < 2 {
            return;
        }
        let from: usize = self.active;
        let to: usize = if left {
            if from == 0 {
                n - 1
            } else {
                from - 1
            }
        } else if from + 1 == n {
            0
        } else {
            from + 1
        };
        proof {
            lemma_around(from as int, n as int);
        }
        self.shift_tab(from, to);
        self.act(Act::Invalidate);
    }

    /// Take a tab to another place, and make it active there.
    pub(crate) fn shift_tab(&mut self, from: usize, to: usize)
        requires
            old(self).wf(),
            from < old(self)@.tabs.len(),
            to < old(self)@.tabs.len(),
        ensures
            final(self).wf(),
            final(self)@ == (Win {
                tabs: old(self)@.tabs.remove(from as int).insert(
                    to as int,
                    old(self)@.tabs[from as int],
                ),
                active: to as int,
                ..old(self)@
            }),
    {
        let ghost before = self@;
        let tab = self.tabs.remove(from);
        assert(tab@ == before.tabs[from as int]);
        self.tabs.insert(to, tab);
        self.active = to;
        proof {
            let rest = before.tabs.remove(from as int);
            assert(self@.tabs =~= rest.insert(to as int, tab@));
            assert forall|k: int| 0 <= k < self@.tabs.len() implies tabs::tab_wf(
                #[trigger] self@.tabs[k],
            ) by {
                if k != to {
                    let m = if k < to {
                        k
                    } else {
                        k - 1
                    };
                    assert(rest[m] == before.tabs[if m < from {
                        m
                    } else {
                        m + 1
                    }]);
                }
            }
        }
    }

    /// Give a tab a window of its own.
    pub fn detach_tab(&mut self, idx: usize, at: Option<PixelPoint>)
        requires
            old(self).wf(),
        ensures
            final(self).wf(),
            final(self)@ == detaching(old(self)@, idx as int, at),
    {
        if idx >= self.tabs.len() {
            return;
        }
        if self.tabs.len() == 1 {
            if let Some(p) = at {
                self.act(Act::MoveWindow { x: less(p.x, 60), y: less(p.y, 14) });
            }
            return;
        }
        self.act(Act::TearOut { tab: idx, at });
    }

    /// Set the font size of the active tab; other tabs keep theirs.
    pub fn set_font_size(&mut self, size: i32)
        requires
            old(self).wf(),
        ensures
            final(self).wf(),
            final(self)@ == font_set(old(self)@, size as int),
    {
        let s: i32 = ctl::clamp_font(size);
        let i: usize = self.active;
        if i >= self.tabs.len() {
            return;
        }
        assert(self@.tabs[i as int] == self.tabs@[i as int]@);
        if close_sizes(s, self.tabs[i].font_size) {
            return;
        }
        if close_sizes(s, self.settings.font_size) {
            set_font(&mut self.tabs[i], s, true);
            proof {
                self.lemma_one_tab(*old(self), i as int);
            }
        } else {
            set_font(&mut self.tabs[i], s, false);
            proof {
                self.lemma_one_tab(*old(self), i as int);
            }
            self.act(Act::BuildFonts { tab: i, size: s });
        }
        self.act(Act::Relayout);
        self.act(Act::Invalidate);
    }

    /// Make the font of the active tab larger or smaller.
    pub fn bump_font(&mut self, delta: i32)
        requires
            old(self).wf(),
        ensures
            final(self).wf(),
            final(self)@ == font_set(old(self)@, window::font_of(old(self)@) + delta),
    {
        let mut size: i64 = self.settings.font_size as i64;
        if self.active < self.tabs.len() {
            assert(self@.tabs[self.active as int] == self.tabs@[self.active as int]@);
            size = self.tabs[self.active].font_size as i64;
        }
        let to: i64 = size + delta as i64;
        let s: i32 = if to < ctl::MIN_FONT as i64 {
            ctl::MIN_FONT
        } else if to > ctl::MAX_FONT as i64 {
            ctl::MAX_FONT
        } else {
            to as i32
        };
        self.set_font_size(s);
    }

    /// The fonts of a tab have been made.
    pub fn fonts_built(&mut self, idx: usize, cell: CellSize)
        requires
            old(self).wf(),
            tabs::cell_ok(cell),
        ensures
            final(self).wf(),
            final(self)@ == (if idx < old(self)@.tabs.len() {
                Win {
                    tabs: old(self)@.tabs.update(
                        idx as int,
                        TabModel { cell: Some(cell), ..old(self)@.tabs[idx as int] },
                    ),
                    ..old(self)@
                }
            } else {
                old(self)@
            }),
    {
        if idx < self.tabs.len() {
            assert(self@.tabs[idx as int] == self.tabs@[idx as int]@);
            set_cell(&mut self.tabs[idx], cell);
            proof {
                self.lemma_one_tab(*old(self), idx as int);
            }
        }
    }

    /// Move a pane of the active tab to a tab of its own.
    pub fn pane_to_new_tab(&mut self, id: PaneId)
        requires
            old(self).wf(),
            old(self)@.tabs.len() < chrome::MAX_TABS,
        ensures
            final(self).wf(),
            final(self)@ == pane_moved_out(old(self)@, id),
    {
        let i: usize = self.active;
        if i >= self.tabs.len() {
            return;
        }
        let ghost before = self@;
        assert(before.tabs[i as int] == self.tabs@[i as int]@);
        let font: i32 = self.tabs[i].font_size;
        let cell = self.tabs[i].cell;
        let gone = self.tabs[i].remove(id);
        proof {
            self.lemma_one_tab(*old(self), i as int);
        }
        match gone {
            Some(pane) => {
                let mut tab = Tab::single(pane, font);
                tab.cell = cell;
                let n: usize = self.tabs.len();
                assert(tab@ == TabModel {
                    cell: before.tabs[i as int].cell,
                    ..tabs::single_tab(pane, font)
                });
                self.put_tab(tab, n);
            },
            None => {
                assert(self@.tabs =~= before.tabs);
            },
        }
    }

    fn page_of(&self, idx: usize) -> (r: Option<PaneId>)
        requires
            idx < self.tabs@.len(),
        ensures
            r == page_from(self@.tabs[idx as int], 0),
            r matches Some(b) ==> window::is_browser(self@.tabs[idx as int], b),
    {
        let ghost t = self@.tabs[idx as int];
        assert(t == self.tabs@[idx as int]@);
        let l = pane_tree::collect_leaves(&self.tabs[idx].root);
        let mut i: usize = 0;
        while i < l.len()
            invariant
                i <= l@.len(),
                idx < self.tabs@.len(),
                t == self.tabs@[idx as int]@,
                l@ == pane_tree::leaves(t.root),
                page_from(t, 0) == page_from(t, i as int),
            decreases l@.len() - i,
        {
            let id: PaneId = l[i];
            let page = match self.tabs[idx].pane(id) {
                Some(p) => matches!(p.kind, PaneKind::Browser(_)),
                None => false,
            };
            if page {
                return Some(id);
            }
            i += 1;
        }
        None
    }

    fn request_end(&mut self, idx: usize)
        requires
            old(self).wf(),
        ensures
            final(self).wf(),
            final(self)@ == request_done(old(self)@, idx as int),
    {
        if idx == self.active {
            self.act(Act::Relayout);
        }
        self.act(Act::Invalidate);
    }

    /// Serve a request from a shell. Returns false where the shell is not in
    /// this window, or the request cannot be served.
    pub fn handle_ctl(&mut self, req: &CtlReq) -> (r: bool)
        requires
            old(self).wf(),
        ensures
            final(self).wf(),
            (final(self)@, r) == request_served(old(self)@, req.pane, req.verb@, req.arg@),
    {
        let i: usize = match self.tab_of(req.pane) {
            Some(i) => i,
            None => {
                return false;
            },
        };
        let verb = req.verb.as_str();
        proof {
            reveal_strlit("browse");
            reveal_strlit("reload");
            reveal_strlit("devtools");
        }
        match self.page_of(i) {
            Some(b) => {
                if text::same(verb, "browse") {
                    self.push(Job::Navigate(b, req.arg.clone()));
                } else if text::same(verb, "reload") {
                    self.act(Act::Reload(b));
                } else if text::same(verb, "devtools") {
                    self.act(Act::Devtools(b));
                } else {
                    return false;
                }
                self.request_end(i);
                true
            },
            None => {
                if !text::same(verb, "browse") {
                    return false;
                }
                self.push(Job::Browse(req.pane, browser_pane::normalize_url(req.arg.as_str())));
                true
            },
        }
    }

    /// A page has been made for a request from a shell.
    pub fn browse_beside(&mut self, target: PaneId, pane: Pane)
        requires
            old(self).wf(),
            pane.kind is Browser,
            window::tab_with(old(self)@.tabs, target, 0) matches Some(i) ==> !old(
                self,
            )@.tabs[i].panes.dom().contains(pane.id) && pane_tree::leaves(
                old(self)@.tabs[i].root,
            ).len() < pane_tree::MAX_PANES,
        ensures
            final(self).wf(),
            final(self)@ == page_beside(old(self)@, target, pane),
    {
        let i: usize = match self.tab_of(target) {
            Some(i) => i,
            None => {
                return;
            },
        };
        assert(self@.tabs[i as int] == self.tabs@[i as int]@);
        let pane = tabs::shown(pane, i == self.active);
        self.tabs[i].split_at(target, Dir::Row, pane);
        proof {
            self.lemma_one_tab(*old(self), i as int);
        }
        self.request_end(i);
    }

    /// Send a page to an address. Returns the address for its URL bar, and
    /// whether the page is there to go; nothing where the pane is no page.
    pub fn navigate(&mut self, id: PaneId, url: &str) -> (r: Option<(String, bool)>)
        requires
            old(self).wf(),
        ensures
            final(self).wf(),
            match window::tab_with(old(self)@.tabs, id, 0) {
                Some(i) if window::is_browser(old(self)@.tabs[i], id) => {
                    let before = old(self)@.tabs[i];
                    let after = final(self)@.tabs[i].panes[id];
                    &&& r matches Some(go)
                    &&& go.0@ == browser_pane::normalized(url@)
                    &&& go.1 == before.panes[id].kind->Browser_0.ready
                    &&& navigated(before.panes[id], after, url@)
                    &&& final(self)@ == (Win {
                        tabs: old(self)@.tabs.update(
                            i,
                            TabModel { panes: before.panes.insert(id, after), ..before },
                        ),
                        ..old(self)@
                    })
                },
                _ => r is None && final(self)@ == old(self)@,
            },
    {
        let i: usize = match self.tab_of(id) {
            Some(i) => i,
            None => {
                return None;
            },
        };
        assert(self@.tabs[i as int] == self.tabs@[i as int]@);
        let page = match self.tabs[i].pane(id) {
            Some(p) => matches!(p.kind, PaneKind::Browser(_)),
            None => false,
        };
        if !page {
            return None;
        }
        let r = go_to(&mut self.tabs[i], id, url);
        proof {
            self.lemma_one_tab(*old(self), i as int);
        }
        Some(r)
    }

    /// Show a passing announcement.
    pub fn show_toast(&mut self, t: String)
        requires
            old(self).wf(),
        ensures
            final(self).wf(),
            final(self)@ == announced(old(self)@, t@),
    {
        self.toast = Some(t);
        self.act(Act::ToastTimer);
        self.act(Act::Invalidate);
    }

    /// The title of the active tab.
    pub fn title(&self) -> (r: Option<String>)
        requires
            self.wf(),
        ensures
            match (window::current(self@), r) {
                (Some(t), Some(s)) => s@ == tabs::tab_title(t),
                (None, None) => true,
                _ => false,
            },
    {
        if self.active < self.tabs.len() {
            assert(self@.tabs[self.active as int] == self.tabs@[self.active as int]@);
            Some(self.tabs[self.active].title())
        } else {
            None
        }
    }
}

fn toggle_zoom(t: &mut Tab)
    requires
        tabs::tab_wf(old(t)@),
    ensures
        tabs::tab_wf(final(t)@),
        final(t)@ == (TabModel {
            zoomed: if old(t).zoomed is Some {
                None
            } else {
                Some(old(t).active)
            },
            ..old(t)@
        }),
{
    t.zoomed = if t.zoomed.is_some() {
        None
    } else {
        Some(t.active)
    };
}

fn set_font(t: &mut Tab, size: i32, default: bool)
    requires
        tabs::tab_wf(old(t)@),
    ensures
        tabs::tab_wf(final(t)@),
        final(t)@ == (TabModel {
            font_size: size,
            cell: if default {
                None
            } else {
                old(t).cell
            },
            ..old(t)@
        }),
{
    t.font_size = size;
    if default {
        t.cell = None;
    }
}

fn set_cell(t: &mut Tab, cell: CellSize)
    requires
        tabs::tab_wf(old(t)@),
        tabs::cell_ok(cell),
    ensures
        tabs::tab_wf(final(t)@),
        final(t)@ == (TabModel { cell: Some(cell), ..old(t)@ }),
{
    t.cell = Some(cell);
}

fn go_to(t: &mut Tab, id: PaneId, url: &str) -> (r: (String, bool))
    requires
        tabs::tab_wf(old(t)@),
        window::is_browser(old(t)@, id),
    ensures
        tabs::tab_wf(final(t)@),
        r.0@ == browser_pane::normalized(url@),
        r.1 == old(t)@.panes[id].kind->Browser_0.ready,
        navigated(old(t)@.panes[id], final(t)@.panes[id], url@),
        final(t)@ == (TabModel {
            panes: old(t)@.panes.insert(id, final(t)@.panes[id]),
            ..old(t)@
        }),
{
    let ghost before = t@;
    match t.take(id) {
        Some(p) => match p.kind {
            PaneKind::Browser(mut b) => {
                let r = b.navigate(url);
                t.panes.insert(id, Pane { id, kind: PaneKind::Browser(b) });
                assert(t@.panes =~= before.panes.insert(
                    id,
                    Pane { id, kind: PaneKind::Browser(b) },
                ));
                r
            },
            PaneKind::Term(_) => (String::new(), false),
        },
        None => (String::new(), false),
    }
}

fn close_sizes(a: i32, b: i32) -> (r: bool)
    ensures
        r == same_size(a as int, b as int),
{
    let d: i64 = a as i64 - b as i64;
    -10 < d && d < 10
}

fn less(a: i32, b: i32) -> (r: i32)
    requires
        0 <= b,
    ensures
        r == minus(a, b),
{
    if (a as i64 - b as i64) < i32::MIN as i64 {
        i32::MIN
    } else {
        a - b
    }
}

proof fn lemma_around(from: int, n: int)
    requires
        0 <= from < n,
        n >= 2,
    ensures
        (from - 1) % n == (if from == 0 {
            n - 1
        } else {
            from - 1
        }),
        (from + 1) % n == (if from + 1 == n {
            0
        } else {
            from + 1
        }),
{
    if from == 0 {
        assert((-1int) % n == n - 1) by (nonlinear_arith)
            requires
                n >= 2,
        ;
    } else {
        vstd::arithmetic::div_mod::lemma_small_mod((from - 1) as nat, n as nat);
    }
    if from + 1 == n {
        vstd::arithmetic::div_mod::lemma_mod_self_0(n);
    } else {
        vstd::arithmetic::div_mod::lemma_small_mod((from + 1) as nat, n as nat);
    }
}

/// A tab that is moved to the right and back again is where it was.
pub proof fn law_move_tab_back(w: Win)
    requires
        window::win_wf(w),
        w.tabs.len() > 0,
    ensures
        tab_moved(tab_moved(w, 1), -1).tabs == w.tabs,
        tab_moved(tab_moved(w, 1), -1).active == w.active,
{
    let n = w.tabs.len() as int;
    if n >= 2 {
        lemma_around(w.active, n);
        let w1 = tab_moved(w, 1);
        lemma_around(w1.active, n);
        let w2 = tab_moved(w1, -1);
        assert(w1.tabs[w1.active] == w.tabs[w.active]);
        assert(w1.tabs.remove(w1.active) =~= w.tabs.remove(w.active));
        assert(w2.tabs =~= w.tabs);
    }
}

/// Zooming and zooming back leaves the tabs as they were.
pub proof fn law_zoom_twice(w: Win)
    requires
        window::win_wf(w),
        window::current(w) matches Some(t) ==> t.zoomed is None,
    ensures
        zoom_toggled(zoom_toggled(w)).tabs == w.tabs,
{
    if window::current(w) is Some {
        let w1 = zoom_toggled(w);
        assert(zoom_toggled(w1).tabs =~= w.tabs);
    }
}

/// Closing a tab changes nothing of the window before the session is saved.
pub proof fn law_saved_before_close(w: Win, idx: int)
    requires
        0 <= idx < w.tabs.len(),
    ensures
        closing(w, idx) == (Win { work: closing(w, idx).work, ..w }),
        closing(w, idx).work == w.work.push(Work::Act(Act::SaveSession)).push(
            Work::Act(Act::CloseTab(idx as usize)),
        ),
{
}

/// A tab that is handed from one window to another arrives as it was: its tree,
/// its active pane and its terminals with all they hold; only pages are shown
/// again. The other window keeps its own tabs in their order.
pub proof fn law_tab_survives_move(from: Win, idx: int, to: Win, slot: int)
    requires
        0 <= idx < from.tabs.len(),
        0 <= slot <= to.tabs.len(),
    ensures
        ({
            let t = from.tabs[idx];
            let moved = tabs::shown_tab(t, false);
            let arrived = tab_put(to, moved, slot).tabs[slot];
            &&& arrived.root == t.root
            &&& arrived.active == t.active
            &&& arrived.zoomed == t.zoomed
            &&& arrived.font_size == t.font_size
            &&& arrived.panes.dom() == t.panes.dom()
            &&& forall|id: PaneId|
                t.panes.dom().contains(id) && (#[trigger] t.panes[id]).kind is Term
                    ==> arrived.panes[id] == t.panes[id]
        }),
        tab_put(to, tabs::shown_tab(from.tabs[idx], false), slot).tabs.len() == to.tabs.len() + 1,
        tab_put(to, tabs::shown_tab(from.tabs[idx], false), slot).active == slot,
{
    let t = from.tabs[idx];
    let moved = tabs::shown_tab(t, false);
    let w1 = Win { tabs: to.tabs.insert(slot, moved), ..to };
    let arrived = tab_put(to, moved, slot).tabs[slot];
    let w2 = Win { tabs: window::only_shown(w1.tabs, slot), active: slot, ..w1 };
    window::lemma_focus_keeps(window::did(window::did(w2, Act::Relayout), Act::Title));
    assert(arrived == tabs::shown_tab(moved, true));
    assert(arrived.panes.dom() =~= t.panes.dom());
}

/// Whether two tabs are the same but for which pages are shown.
pub open spec fn same_tab(a: TabModel, b: TabModel) -> bool {
    &&& a.root == b.root && a.active == b.active && a.zoomed == b.zoomed && a.font_size
        == b.font_size && a.cell == b.cell && a.panes.dom() == b.panes.dom()
}

/// A tab that is gone leaves the others in their order. The window goes with its
/// last tab; otherwise a tab is shown: the one at the place of the active one,
/// or the last.
pub proof fn law_tab_gone(w: Win, idx: int, i: int)
    requires
        window::win_wf(w),
        0 <= idx < w.tabs.len(),
    ensures
        ({
            let r = tab_gone(w, idx);
            &&& r.tabs.len() == w.tabs.len() - 1
            &&& w.tabs.len() == 1 ==> r.work == w.work.push(Work::Act(Act::Destroy))
            &&& w.tabs.len() > 1 ==> {
                &&& r.active == (if w.active == w.tabs.len() - 1 {
                    w.tabs.len() - 2
                } else {
                    w.active
                })
                &&& 0 <= i < idx ==> same_tab(r.tabs[i], w.tabs[i])
                &&& idx <= i < w.tabs.len() - 1 ==> same_tab(r.tabs[i], w.tabs[i + 1])
            }
        }),
{
    let w1 = Win { tabs: w.tabs.remove(idx), ..w };
    let to = if w.active >= w1.tabs.len() {
        w1.tabs.len() - 1
    } else {
        w.active
    };
    if w.tabs.len() > 1 {
        window::law_switch_shows_tab(w1, to, i, 0);
    }
}

/// A tab that comes in is put where it is asked for, and shown; the others keep
/// their order.
pub proof fn law_tab_put(w: Win, tab: TabModel, idx: int, i: int)
    requires
        0 <= idx <= w.tabs.len(),
    ensures
        ({
            let r = tab_put(w, tab, idx);
            &&& r.tabs.len() == w.tabs.len() + 1
            &&& r.active == idx
            &&& same_tab(r.tabs[idx], tab)
            &&& 0 <= i < idx ==> same_tab(r.tabs[i], w.tabs[i])
            &&& idx <= i < w.tabs.len() ==> same_tab(r.tabs[i + 1], w.tabs[i])
        }),
{
    let w1 = Win { tabs: w.tabs.insert(idx, tab), ..w };
    window::law_switch_shows_tab(w1, idx, idx, 0);
    window::law_switch_shows_tab(w1, idx, i, 0);
    window::law_switch_shows_tab(w1, idx, i + 1, 0);
}

/// A new pane is put right behind the active one of the active tab, and becomes
/// the active one; a terminal gets the keyboard, a page has its URL bar focused.
/// No other tab changes.
pub proof fn law_split_activates_new_pane(w: Win, dir: Dir, pane: Pane, t: TabModel, i: int)
    requires
        window::win_wf(w),
        window::current(w) == Some(t),
        !t.panes.dom().contains(pane.id),
    ensures
        ({
            let r = pane_split(w, dir, pane);
            let u = r.tabs[w.active];
            &&& r.active == w.active && r.tabs.len() == w.tabs.len()
            &&& u.active == pane.id
            &&& u.zoomed is None
            &&& u.panes == t.panes.insert(pane.id, pane)
            &&& u.root == pane_tree::split_tree(t.root, t.active, dir, pane.id, false)
            &&& pane_tree::put_beside(
                pane_tree::leaves(t.root),
                pane_tree::leaves(u.root),
                t.active,
                pane.id,
                false,
            )
            &&& 0 <= i < w.tabs.len() && i != w.active ==> r.tabs[i] == w.tabs[i]
            &&& r.work.contains(Work::Act(Act::Relayout))
            &&& pane.kind is Browser ==> r.work.contains(Work::Act(Act::FocusUrl(pane.id)))
            &&& pane.kind is Term && w.focused ==> r.focus_pane == Some(pane.id)
        }),
{
    assert(tabs::tab_wf(w.tabs[w.active]));
    pane_tree::law_split(t.root, t.active, dir, pane.id, false);
    let u = TabModel { active: pane.id, ..tabs::with_pane(t, t.active, dir, pane) };
    let w1 = window::with_current(w, u);
    let w2 = window::did(w1, Act::Relayout);
    window::lemma_focus_keeps(w2);
    window::lemma_work_grows(w2);
    window::law_focus_in_step(w2);
    let r = pane_split(w, dir, pane);
    let n = w.work.len() as int;
    assert(w2.work[n] == Work::Act(Act::Relayout));
    assert(r.work[n] == Work::Act(Act::Relayout));
    if pane.kind is Browser {
        assert(r.work[n + 1] == Work::Act(Act::FocusUrl(pane.id)));
    }
}

/// Closing the active pane takes just that one out and ends what runs in it;
/// with the last pane of a tab the tab is closed instead.
pub proof fn law_close_active(w: Win, t: TabModel, i: int)
    requires
        window::win_wf(w),
        window::current(w) == Some(t),
    ensures
        ({
            let r = active_closed(w);
            &&& t.root is Leaf ==> r == closing(w, w.active)
            &&& t.root is Split ==> {
                &&& r.tabs.len() == w.tabs.len() && r.active == w.active
                &&& r.tabs[w.active] == tabs::without_pane(t, t.active)
                &&& !r.tabs[w.active].panes.dom().contains(t.active)
                &&& 0 <= i < w.tabs.len() && i != w.active ==> r.tabs[i] == w.tabs[i]
                &&& r.work.contains(Work::Act(Act::Discard(t.active)))
                &&& r.work.contains(Work::Act(Act::Relayout))
            }
        }),
{
    assert(tabs::tab_wf(w.tabs[w.active]));
    if t.root is Split {
        let w1 = window::did(
            window::with_current(w, tabs::without_pane(t, t.active)),
            Act::Discard(t.active),
        );
        let w2 = window::did(w1, Act::Relayout);
        window::lemma_focus_keeps(w2);
        window::lemma_work_grows(w2);
        let r = active_closed(w);
        let n = w.work.len() as int;
        assert(w2.work[n] == Work::Act(Act::Discard(t.active)));
        assert(w2.work[n + 1] == Work::Act(Act::Relayout));
        assert(r.work[n] == w2.work[n]);
        assert(r.work[n + 1] == w2.work[n + 1]);
    }
}

/// A pane that ended is taken out of the tab that it is in, wherever that is;
/// with the last pane of a tab the tab is closed. A pane that is nowhere
/// changes nothing.
pub proof fn law_close_pane(w: Win, id: PaneId, k: int, i: int)
    requires
        window::win_wf(w),
        0 <= k < w.tabs.len(),
        w.tabs[k].panes.dom().contains(id),
        forall|j: int| 0 <= j < w.tabs.len() && j != k ==> !(#[trigger] w.tabs[j]).panes.dom().contains(id),
    ensures
        ({
            let r = pane_closed(w, id);
            let t = w.tabs[k];
            &&& t.root is Leaf ==> r == closing(w, k)
            &&& t.root is Split ==> {
                &&& r.tabs.len() == w.tabs.len() && r.active == w.active
                &&& r.tabs[k] == tabs::without_pane(t, id)
                &&& !r.tabs[k].panes.dom().contains(id)
                &&& 0 <= i < w.tabs.len() && i != k ==> r.tabs[i] == w.tabs[i]
                &&& r.work.contains(Work::Act(Act::Discard(id)))
                &&& r.focus_pane != Some(id)
            }
        }),
{
    assert(tabs::tab_wf(w.tabs[k]));
    window::law_tab_with(w.tabs, id);
    let t = w.tabs[k];
    if t.root is Split {
        tabs::law_leaving_keeps_others(t, id);
        let w1 = window::did(
            Win {
                tabs: w.tabs.update(k, tabs::without_pane(t, id)),
                focus_pane: if w.focus_pane == Some(id) {
                    None
                } else {
                    w.focus_pane
                },
                ..w
            },
            Act::Discard(id),
        );
        let w2 = window::did(w1, Act::Relayout);
        window::lemma_focus_keeps(w2);
        window::lemma_work_grows(w2);
        let r = pane_closed(w, id);
        let n = w.work.len() as int;
        assert(w1.work[n] == Work::Act(Act::Discard(id)));
        assert(w2.work[n] == w1.work[n]);
        assert(r.work[n] == w1.work[n]);
    }
}

/// Another pane can be made active, and only that changes: the tree stays.
pub proof fn law_activate(w: Win, id: PaneId, t: TabModel)
    requires
        window::current(w) == Some(t),
    ensures
        activated(w, id).tabs == w.tabs.update(w.active, TabModel { active: id, ..t }),
        activated(w, id).active == w.active,
        t.active == id ==> activated(w, id) == w,
{
    assert(w.tabs.update(w.active, TabModel { active: t.active, ..t }) =~= w.tabs);
    let w1 = window::with_current(w, TabModel { active: id, ..t });
    window::lemma_focus_keeps(w1);
}

/// A zoom makes the active pane the only one on show, and the next one shows all
/// again.
pub proof fn law_zoom_shows_active(w: Win, t: TabModel)
    requires
        window::current(w) == Some(t),
    ensures
        zoom_toggled(w).tabs[w.active].zoomed == (if t.zoomed is None {
            Some(t.active)
        } else {
            None
        }),
        zoom_toggled(w).tabs[w.active].root == t.root,
        zoom_toggled(w).tabs[w.active].active == t.active,
        zoom_toggled(w).work.contains(Work::Act(Act::Relayout)),
{
    let n = w.work.len() as int;
    assert(zoom_toggled(w).work[n] == Work::Act(Act::Relayout));
}

/// Moving the active tab takes it one place on, around the ends, and keeps it
/// active; the other tabs keep their order.
pub proof fn law_move_tab(w: Win)
    requires
        window::win_wf(w),
        w.tabs.len() > 1,
    ensures
        tab_moved(w, 1).active == (if w.active == w.tabs.len() - 1 {
            0
        } else {
            w.active + 1
        }),
        tab_moved(w, -1).active == (if w.active == 0 {
            w.tabs.len() - 1
        } else {
            w.active - 1
        }),
        forall|d: int|
            d == 1 || d == -1 ==> {
                let r = #[trigger] tab_moved(w, d);
                &&& r.tabs.len() == w.tabs.len()
                &&& r.tabs[r.active] == w.tabs[w.active]
                &&& r.tabs.remove(r.active) == w.tabs.remove(w.active)
            },
{
    let n = w.tabs.len() as int;
    let at = w.active;
    assert((at + 1) % n == (if at == n - 1 {
        0
    } else {
        at + 1
    })) by {
        if at == n - 1 {
            vstd::arithmetic::div_mod::lemma_mod_self_0(n);
        } else {
            vstd::arithmetic::div_mod::lemma_small_mod((at + 1) as nat, n as nat);
        }
    }
    assert((at - 1) % n == (if at == 0 {
        n - 1
    } else {
        at - 1
    })) by {
        if at == 0 {
            assert((-1int) % n == n - 1) by (nonlinear_arith)
                requires
                    n >= 1,
            ;
        } else {
            vstd::arithmetic::div_mod::lemma_small_mod((at - 1) as nat, n as nat);
        }
    }
    assert forall|d: int| d == 1 || d == -1 implies {
        let r = #[trigger] tab_moved(w, d);
        &&& r.tabs.len() == w.tabs.len()
        &&& r.tabs[r.active] == w.tabs[w.active]
        &&& r.tabs.remove(r.active) == w.tabs.remove(w.active)
    } by {
        let r = tab_moved(w, d);
        assert(r.tabs.remove(r.active) =~= w.tabs.remove(w.active));
    }
}

/// A tab among others is torn out to a window of its own; an only tab moves its
/// window instead, so that the pointer stays on it.
pub proof fn law_detach(w: Win, idx: int, p: PixelPoint)
    requires
        0 <= idx < w.tabs.len(),
    ensures
        w.tabs.len() > 1 ==> detaching(w, idx, Some(p)).work == w.work.push(
            Work::Act(Act::TearOut { tab: idx as usize, at: Some(p) }),
        ),
        w.tabs.len() == 1 ==> detaching(w, idx, None) == w,
        w.tabs.len() == 1 && p.x > -1000 && p.y > -1000 ==> detaching(w, idx, Some(p)).work
            == w.work.push(
            Work::Act(Act::MoveWindow { x: (p.x - 60) as i32, y: (p.y - 14) as i32 }),
        ),
        detaching(w, idx, Some(p)).tabs == w.tabs,
{
}

/// A font size is set for the active tab alone, within its limits, and takes
/// fonts of its own unless it is the usual size; a larger wish never gives a
/// smaller font, up to what counts as the same size.
pub proof fn law_font_size(w: Win, t: TabModel, a: int, b: int, i: int)
    requires
        window::current(w) == Some(t),
        a <= b,
        ctl::MIN_FONT <= t.font_size <= ctl::MAX_FONT,
    ensures
        ({
            let (r, s) = (font_set(w, a), font_set(w, b));
            &&& ctl::MIN_FONT <= r.tabs[w.active].font_size <= ctl::MAX_FONT
            &&& r.tabs[w.active].font_size <= s.tabs[w.active].font_size + 10
            &&& ctl::MIN_FONT <= a <= ctl::MAX_FONT && (a - t.font_size >= 10 || t.font_size - a
                >= 10) ==> {
                &&& r.tabs[w.active].font_size == a
                &&& r.work.contains(Work::Act(Act::Relayout))
                &&& (a - w.settings.font_size >= 10 || w.settings.font_size - a >= 10)
                    ==> r.work.contains(
                    Work::Act(Act::BuildFonts { tab: w.active as usize, size: a as i32 }),
                )
                &&& a == w.settings.font_size ==> r.tabs[w.active].cell is None
            }
            &&& 0 <= i < w.tabs.len() && i != w.active ==> r.tabs[i] == w.tabs[i]
            &&& r.tabs[w.active].root == t.root && r.tabs[w.active].panes == t.panes
        }),
{
    let r = font_set(w, a);
    let n = w.work.len() as int;
    if ctl::MIN_FONT <= a <= ctl::MAX_FONT && (a - t.font_size >= 10 || t.font_size - a >= 10) {
        if same_size(a, w.settings.font_size as int) {
            assert(r.work[n] == Work::Act(Act::Relayout));
        } else {
            assert(r.work[n] == Work::Act(
                Act::BuildFonts { tab: w.active as usize, size: a as i32 },
            ));
            assert(r.work[n + 1] == Work::Act(Act::Relayout));
        }
    }
}

/// A pane that is given a tab of its own leaves its tab, and is alone in a new
/// last one, which is shown; it keeps all it holds, and the font size.
pub proof fn law_pane_to_own_tab(w: Win, id: PaneId, t: TabModel)
    requires
        window::win_wf(w),
        window::current(w) == Some(t),
        tabs::can_leave(t, id),
    ensures
        ({
            let r = pane_moved_out(w, id);
            let n = w.tabs.len() as int;
            &&& r.tabs.len() == n + 1
            &&& r.active == n
            &&& r.tabs[n].root == pane_tree::Tree::Leaf(id)
            &&& r.tabs[n].active == id
            &&& r.tabs[n].font_size == t.font_size
            &&& r.tabs[n].panes.dom() == Set::<PaneId>::empty().insert(id)
            &&& t.panes[id].kind is Term ==> r.tabs[n].panes[id] == t.panes[id]
            &&& !r.tabs[w.active].panes.dom().contains(id)
            &&& same_tab(r.tabs[w.active], tabs::without_pane(t, id))
        }),
{
    let w1 = window::with_current(w, tabs::without_pane(t, id));
    let own = TabModel { cell: t.cell, ..tabs::single_tab(t.panes[id], t.font_size) };
    let n = w.tabs.len() as int;
    assert(tabs::tab_wf(w.tabs[w.active]));
    assert(t.panes[id].id == id);
    law_tab_put(w1, own, n, w.active);
    let w2 = Win { tabs: w1.tabs.insert(n, own), ..w1 };
    window::law_switch_shows_tab(w2, n, n, id);
    assert(own.panes.dom() =~= Set::<PaneId>::empty().insert(id));
}

/// Moving the focus makes just that pane active that lies beside the active one
/// that way, and nothing where none does.
pub proof fn law_focus_moves_to_neighbor(w: Win, dx: int, dy: int, t: TabModel, r: Option<PaneId>)
    requires
        window::current(w) == Some(t),
        pane_tree::is_neighbor(fitting::panes_on_show(w), t.active, dx, dy, r),
    ensures
        match r {
            Some(id) => focus_moved(w, dx, dy).tabs == w.tabs.update(
                w.active,
                TabModel { active: id, ..t },
            ) && focus_moved(w, dx, dy).active == w.active,
            None => focus_moved(w, dx, dy) == w,
        },
{
    pane_tree::lemma_neighbor_of(fitting::panes_on_show(w), t.active, dx, dy, r);
    if let Some(id) = r {
        let w1 = window::with_current(w, TabModel { active: id, ..t });
        window::lemma_focus_keeps(w1);
    }
}

/// The page of a tab is the first one among its panes; there is none only where
/// no pane is a page.
pub proof fn law_first_page(t: TabModel, k: int)
    requires
        0 <= k < pane_tree::leaves(t.root).len(),
        window::is_browser(t, pane_tree::leaves(t.root)[k]),
    ensures
        page_from(t, 0) matches Some(b) && window::is_browser(t, b) && exists|i: int|
            0 <= i <= k && #[trigger] pane_tree::leaves(t.root)[i] == b,
{
    lemma_page_from(t, 0, k);
}

proof fn lemma_page_from(t: TabModel, i: int, k: int)
    requires
        0 <= i <= k < pane_tree::leaves(t.root).len(),
        window::is_browser(t, pane_tree::leaves(t.root)[k]),
    ensures
        page_from(t, i) matches Some(b) && window::is_browser(t, b) && exists|j: int|
            i <= j <= k && #[trigger] pane_tree::leaves(t.root)[j] == b,
    decreases k - i,
{
    if window::is_browser(t, pane_tree::leaves(t.root)[i]) {
        assert(pane_tree::leaves(t.root)[i] == page_from(t, i)->0);
    } else {
        lemma_page_from(t, i + 1, k);
    }
}

/// A shell can drive the page of its own tab: send it to an address, reload it,
/// open its tools; where the tab has no page, an address opens one beside the
/// shell. A shell of no tab here, and any other request, is not served.
pub proof fn law_requests_of_shells(w: Win, pane: PaneId, arg: Seq<char>, k: int)
    requires
        0 <= k < w.tabs.len(),
        w.tabs[k].panes.dom().contains(pane),
        forall|j: int|
            0 <= j < w.tabs.len() && j != k ==> !(#[trigger] w.tabs[j]).panes.dom().contains(pane),
    ensures
        ({
            let asked = |verb: Seq<char>| request_served(w, pane, verb, arg);
            match page_from(w.tabs[k], 0) {
                Some(b) => {
                    &&& asked("browse"@).1 && asked("browse"@).0.work[w.work.len() as int]
                        == Work::Navigate(b, arg)
                    &&& asked("reload"@).1 && asked("reload"@).0.work[w.work.len() as int]
                        == Work::Act(Act::Reload(b))
                    &&& asked("devtools"@).1 && asked("devtools"@).0.work[w.work.len() as int]
                        == Work::Act(Act::Devtools(b))
                },
                None => {
                    &&& asked("browse"@).1 && asked("browse"@).0.work == w.work.push(
                        Work::Browse(pane, browser_pane::normalized(arg)),
                    )
                    &&& !asked("reload"@).1 && asked("reload"@).0 == w
                    &&& !asked("devtools"@).1
                },
            }
        }),
{
    window::law_tab_with(w.tabs, pane);
    reveal_strlit("browse");
    reveal_strlit("reload");
    reveal_strlit("devtools");
    assert("browse"@[0] != "reload"@[0] && "devtools"@[0] != "browse"@[0] && "devtools"@[0]
        != "reload"@[0]);
}

/// A page that a shell asked for stands to the right of the shell, in its tab;
/// the active pane stays active, and the page is shown only where its tab is.
pub proof fn law_page_beside_shell(w: Win, target: PaneId, pane: Pane, k: int)
    requires
        window::win_wf(w),
        0 <= k < w.tabs.len(),
        w.tabs[k].panes.dom().contains(target),
        forall|j: int|
            0 <= j < w.tabs.len() && j != k ==> !(#[trigger] w.tabs[j]).panes.dom().contains(target),
        !w.tabs[k].panes.dom().contains(pane.id),
        pane.kind is Browser,
    ensures
        ({
            let r = page_beside(w, target, pane);
            let (t, u) = (w.tabs[k], r.tabs[k]);
            &&& r.active == w.active && r.tabs.len() == w.tabs.len()
            &&& u.active == t.active
            &&& u.root == pane_tree::split_tree(t.root, target, Dir::Row, pane.id, false)
            &&& u.panes.dom() == t.panes.dom().insert(pane.id)
            &&& u.panes[pane.id].kind matches PaneKind::Browser(b) && b.visible == (k == w.active)
        }),
{
    window::law_tab_with(w.tabs, target);
    let t = w.tabs[k];
    assert(tabs::with_pane(t, target, Dir::Row, tabs::shown_pane(pane, k == w.active)).panes.dom()
        =~= t.panes.dom().insert(pane.id));
}

/// An announcement is shown, taken away later, and drawn at once.
pub proof fn law_announcement(w: Win, t: Seq<char>)
    ensures
        announced(w, t).toast == Some(t),
        announced(w, t).work == w.work.push(Work::Act(Act::ToastTimer)).push(
            Work::Act(Act::Invalidate),
        ),
        announced(w, t).tabs == w.tabs,
{
}

/// A page that is sent to an address has it, in full, as its own; one that is not
/// there yet goes to it once it is.
pub proof fn law_page_goes_to_address(a: Pane, b: Pane, url: Seq<char>)
    requires
        navigated(a, b, url),
    ensures
        a.kind matches PaneKind::Browser(p) && (b.kind matches PaneKind::Browser(q) && q.url@
            == browser_pane::normalized(url) && (!p.ready ==> q.pending_url@
            == browser_pane::normalized(url)) && (p.ready ==> q.pending_url@ == p.pending_url@)
            && q.visible == p.visible),
        b.id == a.id,
{
}

/// A tab from elsewhere goes where it is dropped, or behind the last.
pub proof fn law_dropped_tab_index(w: Win, i: usize)
    ensures
        i < w.tabs.len() ==> put_index(w, Some(i)) == i,
        i >= w.tabs.len() ==> put_index(w, Some(i)) == w.tabs.len(),
        put_index(w, None) == w.tabs.len(),
{
}

} // verus!
