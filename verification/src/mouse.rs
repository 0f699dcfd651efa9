//! The mouse in a window: tabs, dividers, panes, toolbars, selections, and
//! reports to the shells that asked for them.
use vstd::prelude::*;
use crate::actions;
use crate::chrome;
use crate::chrome::CellSpot;
use crate::fitting;
use crate::input;
use crate::input::{Wheel, WheelEffect};
use crate::keys::Mods;
use crate::modes;
use crate::pane_tree;
use crate::pane_tree::{Area, Dir, Divider, PaneId, RectF, DIP, ONE};
use crate::rearrange;
use crate::rearrange::{DropTarget, Landing};
use crate::scrollback;
use crate::scrollback::{Screen, Spot};
use crate::tab_ops;
use crate::tabs;
use crate::tabs::{PaneKind, Tab, TabModel};
use crate::window;
use crate::window::{Act, Drag, DragModel, Job, PixelPoint, TermWindow, Win, Work};

verus! {

/// The terminal `id` of the active tab, and its screen.
pub open spec fn terminal(w: Win, id: PaneId) -> Option<(crate::term_pane::TermPane, Screen)> {
    match (window::current(w), window::screen_of(w, id)) {
        (Some(t), Some(s)) if window::is_term(t, id) => Some((t.panes[id].kind->Term_0, s)),
        _ => None,
    }
}

/// The window after the mouse was reported to a terminal; nothing where the
/// mouse is not the terminal's.
pub open spec fn reported(
    w: Win,
    id: PaneId,
    content: Area,
    x: int,
    y: int,
    button: u8,
    pressed: bool,
    motion: bool,
    m: Mods,
) -> Option<Win> {
    match terminal(w, id) {
        None => None,
        Some((p, s)) => match input::mouse_bytes(
            s.mode,
            m,
            chrome::spot_under(content, x, y, window::cell_of(w)),
            p.cols as int,
            p.rows as int,
            button,
            pressed,
            motion,
        ) {
            None => None,
            Some(b) => if b.len() == 0 {
                Some(w)
            } else {
                Some(window::with_work(w, Work::Write(id, b)))
            },
        },
    }
}

/// The cell of a terminal's scrollback under a point.
pub open spec fn under_point(w: Win, s: Screen, content: Area, x: int, y: int) -> Spot {
    let p = scrollback::spot_of(chrome::spot_under(content, x, y, window::cell_of(w)), s);
    Spot { line: p.0 as i32, col: p.1 as i32 }
}

/// The pane under a point, and its content.
pub open spec fn content_hit(w: Win, x: int, y: int) -> Option<(PaneId, Area)> {
    match chrome::pane_hit(fitting::panes_on_show(w), x, y) {
        Some((id, r)) => Some((id, chrome::content_area(r, fitting::titled(w)))),
        None => None,
    }
}

/// The button is pressed on the tab bar: on a tab's close glyph, on a tab, on
/// the button that opens one, or beside them.
pub open spec fn bar_pressed(w: Win, x: int, y: int, at: (i64, i64)) -> Win {
    let b = window::bar_of(w);
    match chrome::tab_hit(b, x, y) {
        Some(i) => {
            let r = chrome::tab_area(b, i);
            if x > r.x + r.w - 24 * DIP {
                tab_ops::closing(window::did(w, Act::ReleaseCapture), i)
            } else {
                Win {
                    drag: DragModel::Tab { idx: i as usize, press: at, cur: at, live: false },
                    ..window::switched(w, i)
                }
            }
        },
        None => {
            let w1 = window::did(w, Act::ReleaseCapture);
            if pane_tree::area_has(chrome::plus_area(b), x, y) {
                window::did(w1, Act::NewTab(None))
            } else {
                w1
            }
        },
    }
}

/// The button is pressed on a pane's title bar: on its close glyph, or to drag
/// the pane.
pub open spec fn title_pressed(w: Win, id: PaneId, r: Area, x: int, y: int, at: (i64, i64)) -> Win {
    if pane_tree::area_has(chrome::close_area(r), x, y) {
        tab_ops::pane_closed(window::did(w, Act::ReleaseCapture), id)
    } else {
        Win {
            drag: DragModel::Pane { id, press: at, cur: at, live: false },
            ..tab_ops::activated(w, id)
        }
    }
}

/// The button is pressed on a page's toolbar.
pub open spec fn page_pressed(w: Win, id: PaneId, c: Area, x: int, y: int) -> Win {
    let b = chrome::BTN_W as int;
    let left = c.x + 4 * DIP;
    if pane_tree::area_has(chrome::button_area(left, c.y), x, y) {
        window::did(window::did(w, Act::Back(id)), Act::ReleaseCapture)
    } else if pane_tree::area_has(chrome::button_area(left + b, c.y), x, y) {
        window::did(window::did(w, Act::Forward(id)), Act::ReleaseCapture)
    } else if pane_tree::area_has(chrome::button_area(left + 2 * b, c.y), x, y) {
        window::did(window::did(w, Act::Reload(id)), Act::ReleaseCapture)
    } else if pane_tree::area_has(chrome::button_area(c.x + c.w - 2 * b, c.y), x, y) {
        window::did(window::did(w, Act::Devtools(id)), Act::ReleaseCapture)
    } else if pane_tree::area_has(chrome::button_area(c.x + c.w - b, c.y), x, y) {
        tab_ops::pane_closed(window::did(w, Act::ReleaseCapture), id)
    } else {
        window::did(w, Act::ReleaseCapture)
    }
}

/// The button is pressed on a terminal: on a link with Ctrl, for the shell
/// where the mouse is its own, or to select.
pub open spec fn term_pressed(
    w: Win,
    id: PaneId,
    c: Area,
    x: int,
    y: int,
    m: Mods,
    link: Option<Seq<char>>,
) -> Win {
    let w1 = window::did(w, Act::FocusWindow);
    match link {
        Some(url) if m.ctrl && !m.shift && !m.alt => window::with_work(
            window::did(w1, Act::ReleaseCapture),
            Work::OpenUrl(url),
        ),
        _ => match reported(w1, id, c, x, y, 0, true, false, m) {
            Some(w2) => Win { drag: DragModel::Idle, ..w2 },
            None => match terminal(w1, id) {
                Some((_, s)) => {
                    let w2 = window::did(
                        w1,
                        Act::Select {
                            pane: id,
                            spot: under_point(w1, s, c, x, y),
                            right: chrome::spot_under(c, x, y, window::cell_of(w1)).right,
                            words: false,
                        },
                    );
                    window::did(Win { drag: DragModel::Select, ..w2 }, Act::Invalidate)
                },
                None => w1,
            },
        },
    }
}

/// The button is pressed on a pane.
pub open spec fn pane_pressed(
    w: Win,
    id: PaneId,
    r: Area,
    x: int,
    y: int,
    at: (i64, i64),
    m: Mods,
    link: Option<Seq<char>>,
) -> Win {
    let multi = fitting::titled(w);
    if multi && y < r.y + chrome::PANE_TITLE_H {
        title_pressed(w, id, r, x, y, at)
    } else {
        let c = chrome::content_area(r, multi);
        let w1 = tab_ops::activated(w, id);
        let page = window::current(w1) matches Some(t) && window::is_browser(t, id);
        if page {
            page_pressed(w1, id, c, x, y)
        } else {
            term_pressed(w1, id, c, x, y, m, link)
        }
    }
}

/// The left button is pressed.
pub open spec fn left_pressed(w: Win, at: (i64, i64), m: Mods, link: Option<Seq<char>>) -> Win {
    let x = at.0 as int;
    let y = at.1 as int;
    let w1 = window::did(w, Act::Capture);
    if w.cheatsheet {
        window::did(Win { cheatsheet: false, ..w1 }, Act::Invalidate)
    } else if y < chrome::TABBAR_H {
        bar_pressed(w1, x, y, at)
    } else {
        match chrome::gutter_hit(fitting::gutters_on_show(w1), x, y) {
            Some(g) => Win {
                drag: DragModel::Divider {
                    path: g.path,
                    index: g.index,
                    dir: g.dir,
                    last: at,
                },
                ..w1
            },
            None => match chrome::pane_hit(fitting::panes_on_show(w1), x, y) {
                Some((id, r)) => pane_pressed(w1, id, r, x, y, at, m, link),
                None => w1,
            },
        }
    }
}

/// The left button is pressed twice: it selects words.
pub open spec fn left_doubled(w: Win, x: int, y: int, m: Mods) -> Win {
    if y < chrome::TABBAR_H {
        w
    } else {
        match content_hit(w, x, y) {
            None => w,
            Some((id, c)) => match reported(w, id, c, x, y, 0, true, false, m) {
                Some(w1) => w1,
                None => match terminal(w, id) {
                    Some((_, s)) => {
                        let w1 = window::did(
                            w,
                            Act::Select {
                                pane: id,
                                spot: under_point(w, s, c, x, y),
                                right: chrome::spot_under(c, x, y, window::cell_of(w)).right,
                                words: true,
                            },
                        );
                        window::did(
                            window::did(Win { drag: DragModel::Select, ..w1 }, Act::Capture),
                            Act::Invalidate,
                        )
                    },
                    None => w,
                },
            },
        }
    }
}

/// A drag of a divider, as a share of its split's extent, to no more than
/// twice the whole.
pub open spec fn drag_share(delta: int, extent: int) -> int {
    pane_tree::clamped(delta * ONE / extent, -2 * ONE, 2 * ONE)
}

/// The extent of the split at a path of the active tab's tree.
pub open spec fn extent_at(w: Win, path: Seq<usize>, dir: Dir) -> int {
    let t = window::current(w)->0;
    let a = window::pane_area(w);
    let at = match pane_tree::area_at(t.root, a, path) {
        Some(b) => b,
        None => a,
    };
    if pane_tree::along(at, dir) < DIP {
        DIP as int
    } else {
        pane_tree::along(at, dir)
    }
}

/// The window with a divider dragged on. A divider that is gone, or whose two
/// neighbours leave no room between their least shares, stays where it is.
pub open spec fn divider_dragged(
    w: Win,
    path: Seq<usize>,
    index: usize,
    dir: Dir,
    last: (i64, i64),
    at: (i64, i64),
) -> Win {
    let delta = match dir {
        Dir::Row => at.0 - last.0,
        Dir::Col => at.1 - last.1,
    };
    if -(DIP / 2) < delta < DIP / 2 {
        w
    } else {
        let w1 = match window::current(w) {
            Some(t) if extent_at(w, path, dir) > DIP && pane_tree::drag_room(
                t.root,
                path,
                index as int,
            ) => window::with_current(
                w,
                TabModel {
                    root: pane_tree::drag_tree(
                        t.root,
                        path,
                        index as int,
                        drag_share(delta, extent_at(w, path, dir)),
                    ),
                    ..t
                },
            ),
            _ => w,
        };
        window::did(
            window::did(
                Win { drag: DragModel::Divider { path, index, dir, last: at }, ..w1 },
                Act::Relayout,
            ),
            Act::Invalidate,
        )
    }
}

/// Whether the pointer has gone far enough for a drag.
pub open spec fn goes_live(live: bool, press: (i64, i64), at: (i64, i64)) -> bool {
    ||| live
    ||| at.0 - press.0 > 6 * DIP
    ||| press.0 - at.0 > 6 * DIP
    ||| at.1 - press.1 > 6 * DIP
    ||| press.1 - at.1 > 6 * DIP
}

/// The window with a selection drawn on to a point.
pub open spec fn selection_drawn(w: Win, x: int, y: int) -> Win {
    match window::current(w) {
        None => w,
        Some(t) => match (
            pane_tree::area_of(fitting::panes_on_show(w), t.active),
            terminal(w, t.active),
        ) {
            (Some(r), Some((_, s))) => {
                let c = chrome::content_area(r, fitting::titled(w));
                window::did(
                    window::did(
                        w,
                        Act::ExtendSelection {
                            pane: t.active,
                            spot: under_point(w, s, c, x, y),
                            right: chrome::spot_under(c, x, y, window::cell_of(w)).right,
                        },
                    ),
                    Act::Invalidate,
                )
            },
            _ => w,
        },
    }
}

/// The pointer moves over the window without a drag.
pub open spec fn hovered(w: Win, x: int, y: int, m: Mods) -> Win {
    match content_hit(w, x, y) {
        None => w,
        Some((id, c)) => match terminal(w, id) {
            Some((_, s)) if modes::mode_has(s.mode, modes::MOUSE_MOTION) => match reported(
                w,
                id,
                c,
                x,
                y,
                3,
                true,
                true,
                m,
            ) {
                Some(w1) => w1,
                None => w,
            },
            _ => w,
        },
    }
}

/// The pointer moves.
pub open spec fn pointer_moved(w: Win, at: (i64, i64), held: bool, m: Mods) -> Win {
    match w.drag {
        DragModel::Idle => if held {
            w
        } else {
            hovered(w, at.0 as int, at.1 as int, m)
        },
        DragModel::Divider { path, index, dir, last } => divider_dragged(
            w,
            path,
            index,
            dir,
            last,
            at,
        ),
        DragModel::Tab { idx, press, live, .. } => {
            let on = goes_live(live, press, at);
            let w1 = Win { drag: DragModel::Tab { idx, press, cur: at, live: on }, ..w };
            if on {
                window::did(w1, Act::Invalidate)
            } else {
                w1
            }
        },
        DragModel::Pane { id, press, live, .. } => {
            let on = goes_live(live, press, at);
            let w1 = Win { drag: DragModel::Pane { id, press, cur: at, live: on }, ..w };
            if on {
                window::did(w1, Act::Invalidate)
            } else {
                w1
            }
        },
        DragModel::Select => selection_drawn(w, at.0 as int, at.1 as int),
    }
}

/// A dragged tab is let go: on the own bar it takes that place, on another
/// window's bar it goes there, anywhere else it gets a window of its own.
pub open spec fn tab_dropped(
    w: Win,
    idx: usize,
    x: int,
    y: int,
    pointer: PixelPoint,
    elsewhere: Option<(i64, usize)>,
) -> Win {
    let b = window::bar_of(w);
    if 0 <= y < chrome::TABBAR_H && 0 <= x <= b.width {
        let to = chrome::tab_slot(b, x, w.tabs.len() - 1);
        let w1 = if to != idx {
            Win {
                tabs: w.tabs.remove(idx as int).insert(to, w.tabs[idx as int]),
                active: to,
                ..w
            }
        } else {
            w
        };
        window::did(window::did(w1, Act::Relayout), Act::Invalidate)
    } else {
        match elsewhere {
            Some((target, slot)) => window::did(
                w,
                Act::HandOver { tab: idx, window: target, slot },
            ),
            None => window::did(
                tab_ops::detaching(w, idx as int, Some(pointer)),
                Act::Invalidate,
            ),
        }
    }
}

/// A dragged pane is let go.
pub open spec fn pane_dropped(w: Win, id: PaneId, x: int, y: int) -> Win {
    match rearrange::landing(w, x, y, id) {
        Landing::NewTab => tab_ops::pane_moved_out(w, id),
        land => {
            let w1 = match (window::current(w), land) {
                (Some(t), Landing::Zone { target, dir, before, .. }) => window::with_current(
                    w,
                    rearrange::moved_in_tab(t, id, target, dir, before),
                ),
                (Some(t), Landing::Swap { target, .. }) => window::with_current(
                    w,
                    rearrange::swapped_in_tab(t, id, target),
                ),
                _ => w,
            };
            window::did(
                window::did(
                    window::synced(window::did(w1, Act::Relayout)),
                    Act::Title,
                ),
                Act::Invalidate,
            )
        },
    }
}

/// The left button is let go.
pub open spec fn left_released(
    w: Win,
    x: int,
    y: int,
    m: Mods,
    pointer: PixelPoint,
    elsewhere: Option<(i64, usize)>,
) -> Win {
    let w1 = Win { drag: DragModel::Idle, ..window::did(w, Act::ReleaseCapture) };
    match w.drag {
        DragModel::Tab { idx, live, .. } => if live && idx < w.tabs.len() {
            tab_dropped(w1, idx, x, y, pointer, elsewhere)
        } else {
            w1
        },
        DragModel::Pane { id, live, .. } => if live {
            pane_dropped(w1, id, x, y)
        } else {
            w1
        },
        DragModel::Select => actions::copying(w1),
        DragModel::Idle => match content_hit(w1, x, y) {
            Some((id, c)) => match reported(w1, id, c, x, y, 0, false, false, m) {
                Some(w2) => w2,
                None => w1,
            },
            None => w1,
        },
        DragModel::Divider { .. } => w1,
    }
}

/// The right button is pressed: the profiles on the tab bar; on a pane, for
/// the shell where the mouse is its own, else copy a selection or paste.
pub open spec fn right_pressed(w: Win, at: (i64, i64), m: Mods) -> Win {
    let x = at.0 as int;
    let y = at.1 as int;
    if y < chrome::TABBAR_H {
        window::did(w, Act::ProfileMenu { x: at.0, y: at.1 })
    } else {
        match content_hit(w, x, y) {
            None => w,
            Some((id, c)) => match reported(w, id, c, x, y, 2, true, false, m) {
                Some(w1) => w1,
                None => match actions::active_term(w) {
                    Some(t) if window::screen_of(w, t) matches Some(s) && s.selected => {
                        window::did(
                            window::did(
                                window::did(w, Act::CopySelection(t)),
                                Act::ClearSelection(t),
                            ),
                            Act::Invalidate,
                        )
                    },
                    _ => window::did(w, Act::AskClipboard),
                },
            },
        }
    }
}

/// The wheel turns: with Ctrl it sizes the font, else it is the terminal's
/// under the pointer.
pub open spec fn wheel_turned(w: Win, x: int, y: int, delta: int, m: Mods) -> Win {
    if m.ctrl && !m.shift && !m.alt {
        tab_ops::font_set(
            w,
            window::font_of(w) + if delta > 0 {
                1000int
            } else {
                -1000
            },
        )
    } else {
        match content_hit(w, x, y) {
            None => w,
            Some((id, c)) => match terminal(w, id) {
                None => w,
                Some((p, s)) => match input::wheel_effect(
                    s.mode,
                    m,
                    chrome::spot_under(c, x, y, window::cell_of(w)),
                    p.cols as int,
                    p.rows as int,
                    input::wheel_lines(delta),
                ) {
                    WheelEffect::Nothing => w,
                    WheelEffect::Send(b) => window::with_work(w, Work::Write(id, b)),
                    WheelEffect::Scroll(n) => window::did(
                        window::did(w, Act::Scroll { pane: id, lines: n as i32 }),
                        Act::Invalidate,
                    ),
                },
            },
        }
    }
}

/// The shape of the pointer.
#[derive(Clone, Copy, PartialEq, Eq, Debug, Structural)]
pub enum Cursor {
    Arrow,
    SizeWE,
    SizeNS,
    SizeAll,
    Hand,
    IBeam,
}

/// The shape of the pointer at a point; `link` says whether it is on a link.
pub open spec fn cursor_at(w: Win, x: int, y: int, m: Mods, link: bool) -> Cursor {
    if y < chrome::TABBAR_H {
        Cursor::Arrow
    } else {
        match chrome::gutter_hit(fitting::gutters_on_show(w), x, y) {
            Some(g) => match g.dir {
                Dir::Row => Cursor::SizeWE,
                Dir::Col => Cursor::SizeNS,
            },
            None => match chrome::pane_hit(fitting::panes_on_show(w), x, y) {
                None => Cursor::Arrow,
                Some((id, r)) => if fitting::titled(w) && y < r.y + chrome::PANE_TITLE_H {
                    if pane_tree::area_has(chrome::close_area(r), x, y) {
                        Cursor::Arrow
                    } else {
                        Cursor::SizeAll
                    }
                } else if window::current(w) matches Some(t) && window::is_term(t, id) {
                    if m.ctrl && !m.shift && !m.alt && link {
                        Cursor::Hand
                    } else {
                        Cursor::IBeam
                    }
                } else {
                    Cursor::Arrow
                },
            },
        }
    }
}

impl TermWindow {
    /// Report the mouse to a terminal. Returns whether the mouse is its own.
    fn mouse_report(
        &mut self,
        id: PaneId,
        content: &RectF,
        x: i64,
        y: i64,
        button: u8,
        pressed: bool,
        motion: bool,
        m: &Mods,
    ) -> (r: bool)
        requires
            old(self).wf(),
            chrome::near(content@),
            chrome::point_ok(x as int, y as int),
        ensures
            final(self).wf(),
            match reported(
                old(self)@,
                id,
                content@,
                x as int,
                y as int,
                button,
                pressed,
                motion,
                *m,
            ) {
                Some(w) => r && final(self)@ == w,
                None => !r && final(self)@ == old(self)@,
            },
    {
        let s = match self.screen(id) {
            Some(s) => s,
            None => {
                return false;
            },
        };
        if self.active >= self.tabs.len() {
            return false;
        }
        assert(self@.tabs[self.active as int] == self.tabs@[self.active as int]@);
        let (cols, rows): (u16, u16) = match self.tabs[self.active].pane(id) {
            Some(p) => match &p.kind {
                PaneKind::Term(t) => (t.cols, t.rows),
                PaneKind::Browser(_) => {
                    return false;
                },
            },
            None => {
                return false;
            },
        };
        let spot = chrome::cell_at(content, x, y, self.cell_size());
        match input::mouse_report(s.mode, m, spot, cols, rows, button, pressed, motion) {
            Some(b) => {
                if b.len() > 0 {
                    self.push(Job::Write(id, b));
                }
                true
            },
            None => false,
        }
    }

    fn press_bar(&mut self, x: i64, y: i64)
        requires
            old(self).wf(),
        ensures
            final(self).wf(),
            final(self)@ == bar_pressed(old(self)@, x as int, y as int, (x, y)),
    {
        let b = self.bar();
        if let Some(i) = b.tab_at(x, y) {
            let r = b.tab_rect(i);
            if x > r.x + r.w - 24 * DIP {
                self.act(Act::ReleaseCapture);
                self.close_tab(i);
            } else {
                self.switch_tab(i);
                self.drag = Drag::Tab { idx: i, press: (x, y), cur: (x, y), live: false };
            }
            return;
        }
        self.act(Act::ReleaseCapture);
        if b.plus_rect().contains(x, y) {
            self.new_tab();
        }
    }

    fn press_title(&mut self, id: PaneId, r: &RectF, x: i64, y: i64)
        requires
            old(self).wf(),
            pane_tree::rect_ok(r@),
            window::current(old(self)@) matches Some(t) && t.panes.dom().contains(id),
        ensures
            final(self).wf(),
            final(self)@ == title_pressed(old(self)@, id, r@, x as int, y as int, (x, y)),
    {
        if chrome::title_close_rect(*r).contains(x, y) {
            self.act(Act::ReleaseCapture);
            self.close_pane_by_id(id);
        } else {
            self.activate(id);
            self.drag = Drag::Pane { id, press: (x, y), cur: (x, y), live: false };
        }
    }

    fn press_page(&mut self, id: PaneId, c: &RectF, x: i64, y: i64)
        requires
            old(self).wf(),
            chrome::near(c@),
        ensures
            final(self).wf(),
            final(self)@ == page_pressed(old(self)@, id, c@, x as int, y as int),
    {
        let b = chrome::browser_chrome(*c);
        let mut close = false;
        if b.back.contains(x, y) {
            self.act(Act::Back(id));
        } else if b.fwd.contains(x, y) {
            self.act(Act::Forward(id));
        } else if b.reload.contains(x, y) {
            self.act(Act::Reload(id));
        } else if b.dev.contains(x, y) {
            self.act(Act::Devtools(id));
        } else if b.close.contains(x, y) {
            close = true;
        }
        self.act(Act::ReleaseCapture);
        if close {
            self.close_pane_by_id(id);
        }
    }

    fn press_term(&mut self, id: PaneId, c: &RectF, x: i64, y: i64, m: &Mods, link: Option<String>)
        requires
            old(self).wf(),
            chrome::near(c@),
            chrome::point_ok(x as int, y as int),
        ensures
            final(self).wf(),
            final(self)@ == term_pressed(
                old(self)@,
                id,
                c@,
                x as int,
                y as int,
                *m,
                crate::term_pane::opt_chars(link),
            ),
    {
        self.act(Act::FocusWindow);
        if m.ctrl && !m.shift && !m.alt {
            if let Some(url) = link {
                self.act(Act::ReleaseCapture);
                self.push(Job::OpenUrl(url));
                return;
            }
        }
        if self.mouse_report(id, c, x, y, 0, true, false, m) {
            self.drag = Drag::Idle;
            return;
        }
        if self.select_at(id, c, x, y, false) {
            self.drag = Drag::Select;
            self.act(Act::Invalidate);
        }
    }

    /// Start a selection under a point of a terminal.
    fn select_at(&mut self, id: PaneId, c: &RectF, x: i64, y: i64, words: bool) -> (r: bool)
        requires
            old(self).wf(),
            chrome::near(c@),
            chrome::point_ok(x as int, y as int),
        ensures
            final(self).wf(),
            match terminal(old(self)@, id) {
                Some((_, s)) => r && final(self)@ == window::did(
                    old(self)@,
                    Act::Select {
                        pane: id,
                        spot: under_point(old(self)@, s, c@, x as int, y as int),
                        right: chrome::spot_under(
                            c@,
                            x as int,
                            y as int,
                            window::cell_of(old(self)@),
                        ).right,
                        words,
                    },
                ),
                None => !r && final(self)@ == old(self)@,
            },
    {
        if !self.is_terminal(id) {
            return false;
        }
        match self.screen(id) {
            Some(s) => {
                let spot = chrome::cell_at(c, x, y, self.cell_size());
                let at = scrollback::spot_at(spot, &s);
                self.act(Act::Select { pane: id, spot: at, right: spot.right, words });
                true
            },
            None => false,
        }
    }

    fn press_pane(&mut self, id: PaneId, r: &RectF, x: i64, y: i64, m: &Mods, link: Option<String>)
        requires
            old(self).wf(),
            pane_tree::rect_ok(r@),
            chrome::point_ok(x as int, y as int),
            window::current(old(self)@) matches Some(t) && t.panes.dom().contains(id),
        ensures
            final(self).wf(),
            final(self)@ == pane_pressed(
                old(self)@,
                id,
                r@,
                x as int,
                y as int,
                (x, y),
                *m,
                crate::term_pane::opt_chars(link),
            ),
    {
        let multi = self.is_multi();
        if multi && y < r.y + chrome::PANE_TITLE_H {
            self.press_title(id, r, x, y);
            return;
        }
        let c = chrome::content_rect(*r, multi);
        self.activate(id);
        if self.is_page(id) {
            self.press_page(id, &c, x, y);
        } else {
            self.press_term(id, &c, x, y, m, link);
        }
    }

    /// Whether the pane `id` of the active tab is a page.
    pub fn is_page(&self, id: PaneId) -> (r: bool)
        ensures
            r == (window::current(self@) matches Some(t) && window::is_browser(t, id)),
    {
        if self.active >= self.tabs.len() {
            return false;
        }
        assert(self@.tabs[self.active as int] == self.tabs@[self.active as int]@);
        match self.tabs[self.active].pane(id) {
            Some(p) => matches!(p.kind, PaneKind::Browser(_)),
            None => false,
        }
    }

    /// The left button is pressed. `link` is the address under the pointer.
    pub fn on_lbutton_down(&mut self, x: i64, y: i64, m: &Mods, link: Option<String>)
        requires
            old(self).wf(),
            chrome::point_ok(x as int, y as int),
        ensures
            final(self).wf(),
            final(self)@ == left_pressed(
                old(self)@,
                (x, y),
                *m,
                crate::term_pane::opt_chars(link),
            ),
    {
        self.act(Act::Capture);
        if self.cheatsheet {
            self.cheatsheet = false;
            self.act(Act::Invalidate);
            return;
        }
        if y < chrome::TABBAR_H {
            self.press_bar(x, y);
            return;
        }
        if let Some(mut lay) = self.layout() {
            if let Some(i) = chrome::divider_at(&lay, x, y) {
                let d = lay.dividers.remove(i);
                self.drag = Drag::Divider {
                    path: d.path,
                    index: d.index,
                    dir: d.dir,
                    last: (x, y),
                };
                return;
            }
        }
        if let Some((id, r)) = self.pane_at(x, y) {
            self.press_pane(id, &r, x, y, m, link);
        }
    }

    /// The pane under a point, and its content.
    pub fn pane_content_at(&self, x: i64, y: i64) -> (r: Option<(PaneId, RectF)>)
        requires
            self.wf(),
        ensures
            match r {
                Some(p) => content_hit(self@, x as int, y as int) == Some((p.0, p.1@))
                    && chrome::near(p.1@),
                None => content_hit(self@, x as int, y as int) is None,
            },
    {
        match self.pane_at(x, y) {
            Some((id, r)) => Some((id, chrome::content_rect(r, self.is_multi()))),
            None => None,
        }
    }

    /// The left button is pressed twice.
    pub fn on_dblclick(&mut self, x: i64, y: i64, m: &Mods)
        requires
            old(self).wf(),
            chrome::point_ok(x as int, y as int),
        ensures
            final(self).wf(),
            final(self)@ == left_doubled(old(self)@, x as int, y as int, *m),
    {
        if y < chrome::TABBAR_H {
            return;
        }
        let (id, c) = match self.pane_content_at(x, y) {
            Some(p) => p,
            None => {
                return;
            },
        };
        if self.mouse_report(id, &c, x, y, 0, true, false, m) {
            return;
        }
        if self.select_at(id, &c, x, y, true) {
            self.drag = Drag::Select;
            self.act(Act::Capture);
            self.act(Act::Invalidate);
        }
    }
}

fn drag_to_share(delta: i128, extent: i64) -> (r: i64)
    requires
        -0x1_0000_0000_0000_0000 <= delta <= 0x1_0000_0000_0000_0000,
        0 < extent,
    ensures
        r == drag_share(delta as int, extent as int),
{
    let n: i128 = delta * 0x4000_0000;
    let d: i128 = extent as i128;
    let q: i128 = if n >= 0 {
        n / d
    } else {
        proof {
            chrome::lemma_floor(n as int, d as int);
        }
        -((-n + (d - 1)) / d)
    };
    let most: i128 = 0x8000_0000;
    if q < -most {
        -0x8000_0000
    } else if q > most {
        0x8000_0000
    } else {
        q as i64
    }
}

fn drag_root(t: &mut Tab, path: &Vec<usize>, index: usize, delta: i64)
    requires
        tabs::tab_wf(old(t)@),
        pane_tree::drag_room(old(t)@.root, path@, index as int),
    ensures
        tabs::tab_wf(final(t)@),
        final(t)@ == (TabModel {
            root: pane_tree::drag_tree(old(t)@.root, path@, index as int, delta as int),
            ..old(t)@
        }),
{
    proof {
        pane_tree::law_drag(t@.root, path@, index as int, delta as int);
    }
    pane_tree::drag_divider(&mut t.root, path.as_slice(), index, delta);
}

fn moved_far(live: bool, press: (i64, i64), x: i64, y: i64) -> (r: bool)
    ensures
        r == goes_live(live, press, (x, y)),
{
    let dx: i128 = x as i128 - press.0 as i128;
    let dy: i128 = y as i128 - press.1 as i128;
    live || dx > 6144 || dx < -6144 || dy > 6144 || dy < -6144
}

impl TermWindow {
    fn drag_on(&mut self, path: Vec<usize>, index: usize, dir: Dir, last: (i64, i64), x: i64, y: i64)
        requires
            old(self).wf(),
        ensures
            final(self).wf(),
            final(self)@ == divider_dragged(
                Win {
                    drag: DragModel::Divider { path: path@, index, dir, last },
                    ..old(self)@
                },
                path@,
                index,
                dir,
                last,
                (x, y),
            ),
    {
        let delta: i128 = match dir {
            Dir::Row => x as i128 - last.0 as i128,
            Dir::Col => y as i128 - last.1 as i128,
        };
        if -512 < delta && delta < 512 {
            self.drag = Drag::Divider { path, index, dir, last };
            return;
        }
        let i: usize = self.active;
        if i < self.tabs.len() {
            assert(self@.tabs[i as int] == self.tabs@[i as int]@);
            let area = self.pane_rect();
            let extent: i64 = pane_tree::split_extent(
                &self.tabs[i].root,
                path.as_slice(),
                area,
                dir,
            );
            assert(extent == extent_at(self@, path@, dir));
            if extent > DIP && pane_tree::has_drag_room(
                &self.tabs[i].root,
                path.as_slice(),
                index,
            ) {
                let share: i64 = drag_to_share(delta, extent);
                drag_root(&mut self.tabs[i], &path, index, share);
                proof {
                    self.lemma_one_tab(*old(self), i as int);
                }
            }
        }
        self.drag = Drag::Divider { path, index, dir, last: (x, y) };
        self.act(Act::Relayout);
        self.act(Act::Invalidate);
    }

    fn draw_selection(&mut self, x: i64, y: i64)
        requires
            old(self).wf(),
            chrome::point_ok(x as int, y as int),
        ensures
            final(self).wf(),
            final(self)@ == selection_drawn(old(self)@, x as int, y as int),
    {
        let lay = match self.layout() {
            Some(lay) => lay,
            None => {
                return;
            },
        };
        assert(self@.tabs[self.active as int] == self.tabs@[self.active as int]@);
        let id: PaneId = self.tabs[self.active].active;
        if !self.is_terminal(id) {
            return;
        }
        if let Some(s) = self.screen(id) {
            if let Some(r) = lay.rect_of(id) {
                let c = chrome::content_rect(r, self.is_multi());
                let spot = chrome::cell_at(&c, x, y, self.cell_size());
                let at = scrollback::spot_at(spot, &s);
                self.act(Act::ExtendSelection { pane: id, spot: at, right: spot.right });
                self.act(Act::Invalidate);
            }
        }
    }

    fn hover(&mut self, x: i64, y: i64, m: &Mods)
        requires
            old(self).wf(),
            chrome::point_ok(x as int, y as int),
        ensures
            final(self).wf(),
            final(self)@ == hovered(old(self)@, x as int, y as int, *m),
    {
        if let Some((id, c)) = self.pane_content_at(x, y) {
            if self.is_terminal(id) {
                if let Some(s) = self.screen(id) {
                    if modes::contains(s.mode, modes::MOUSE_MOTION) {
                        self.mouse_report(id, &c, x, y, 3, true, true, m);
                    }
                }
            }
        }
    }

    /// The pointer moves; `held` says whether the left button is down.
    pub fn on_mouse_move(&mut self, x: i64, y: i64, held: bool, m: &Mods)
        requires
            old(self).wf(),
            chrome::point_ok(x as int, y as int),
        ensures
            final(self).wf(),
            final(self)@ == pointer_moved(old(self)@, (x, y), held, *m),
    {
        let mut drag = Drag::Idle;
        std::mem::swap(&mut drag, &mut self.drag);
        match drag {
            Drag::Idle => {
                assert(self@ =~= old(self)@);
                if !held {
                    self.hover(x, y, m);
                }
            },
            Drag::Divider { path, index, dir, last } => {
                let ghost w = Win {
                    drag: DragModel::Divider { path: path@, index, dir, last },
                    ..self@
                };
                assert(w =~= old(self)@);
                self.drag_on(path, index, dir, last, x, y);
            },
            Drag::Tab { idx, press, cur: _, live } => {
                let on = moved_far(live, press, x, y);
                self.drag = Drag::Tab { idx, press, cur: (x, y), live: on };
                if on {
                    self.act(Act::Invalidate);
                }
            },
            Drag::Pane { id, press, cur: _, live } => {
                let on = moved_far(live, press, x, y);
                self.drag = Drag::Pane { id, press, cur: (x, y), live: on };
                if on {
                    self.act(Act::Invalidate);
                }
            },
            Drag::Select => {
                self.drag = Drag::Select;
                assert(self@ =~= old(self)@);
                self.draw_selection(x, y);
            },
        }
    }

    fn drop_dragged_tab(
        &mut self,
        idx: usize,
        x: i64,
        y: i64,
        pointer: PixelPoint,
        elsewhere: Option<(i64, usize)>,
    )
        requires
            old(self).wf(),
            idx < old(self)@.tabs.len(),
        ensures
            final(self).wf(),
            final(self)@ == tab_dropped(
                old(self)@,
                idx,
                x as int,
                y as int,
                pointer,
                elsewhere,
            ),
    {
        let b = self.bar();
        if 0 <= y && y < chrome::TABBAR_H && 0 <= x && x <= b.width {
            let n: usize = self.tabs.len();
            let to: usize = b.slot(x, n - 1);
            if to != idx {
                self.shift_tab(idx, to);
            }
            self.act(Act::Relayout);
            self.act(Act::Invalidate);
            return;
        }
        match elsewhere {
            Some((window, slot)) => {
                self.act(Act::HandOver { tab: idx, window, slot });
            },
            None => {
                self.detach_tab(idx, Some(pointer));
                self.act(Act::Invalidate);
            },
        }
    }

    fn drop_dragged_pane(&mut self, id: PaneId, x: i64, y: i64)
        requires
            old(self).wf(),
            actions::roomy(old(self)@),
        ensures
            final(self).wf(),
            final(self)@ == pane_dropped(old(self)@, id, x as int, y as int),
    {
        let i: usize = self.active;
        match self.drop_target(x, y, id) {
            DropTarget::NewTab => {
                self.pane_to_new_tab(id);
                return;
            },
            DropTarget::Zone { target, dir, before, preview: _ } => {
                if i < self.tabs.len() {
                    assert(self@.tabs[i as int] == self.tabs@[i as int]@);
                    rearrange::move_in_tab(&mut self.tabs[i], id, target, dir, before);
                    proof {
                        self.lemma_one_tab(*old(self), i as int);
                    }
                }
            },
            DropTarget::Swap { target, preview: _ } => {
                if i < self.tabs.len() {
                    assert(self@.tabs[i as int] == self.tabs@[i as int]@);
                    rearrange::swap_in_tab(&mut self.tabs[i], id, target);
                    proof {
                        self.lemma_one_tab(*old(self), i as int);
                    }
                }
            },
            DropTarget::Nothing => {},
        }
        self.act(Act::Relayout);
        self.sync_pane_focus();
        self.act(Act::Title);
        self.act(Act::Invalidate);
    }

    /// The left button is let go. `pointer` is the place on the screen, and
    /// `elsewhere` the window, and the place among its tabs, whose bar is under
    /// the pointer.
    pub fn on_lbutton_up(
        &mut self,
        x: i64,
        y: i64,
        m: &Mods,
        pointer: PixelPoint,
        elsewhere: Option<(i64, usize)>,
    )
        requires
            old(self).wf(),
            actions::roomy(old(self)@),
            chrome::point_ok(x as int, y as int),
        ensures
            final(self).wf(),
            final(self)@ == left_released(
                old(self)@,
                x as int,
                y as int,
                *m,
                pointer,
                elsewhere,
            ),
    {
        let mut drag = Drag::Idle;
        std::mem::swap(&mut drag, &mut self.drag);
        self.act(Act::ReleaseCapture);
        assert(self@ == Win {
            drag: DragModel::Idle,
            ..window::did(old(self)@, Act::ReleaseCapture)
        });
        match drag {
            Drag::Tab { idx, press: _, cur: _, live } => {
                if live && idx < self.tabs.len() {
                    self.drop_dragged_tab(idx, x, y, pointer, elsewhere);
                }
            },
            Drag::Pane { id, press: _, cur: _, live } => {
                if live {
                    self.drop_dragged_pane(id, x, y);
                }
            },
            Drag::Select => {
                self.copy_selection();
            },
            Drag::Idle => {
                if let Some((id, c)) = self.pane_content_at(x, y) {
                    self.mouse_report(id, &c, x, y, 0, false, false, m);
                }
            },
            Drag::Divider { .. } => {},
        }
    }

    /// The right button is pressed.
    pub fn on_rbutton_down(&mut self, x: i64, y: i64, m: &Mods)
        requires
            old(self).wf(),
            chrome::point_ok(x as int, y as int),
        ensures
            final(self).wf(),
            final(self)@ == right_pressed(old(self)@, (x, y), *m),
    {
        if y < chrome::TABBAR_H {
            self.act(Act::ProfileMenu { x, y });
            return;
        }
        let (id, c) = match self.pane_content_at(x, y) {
            Some(p) => p,
            None => {
                return;
            },
        };
        if self.mouse_report(id, &c, x, y, 2, true, false, m) {
            return;
        }
        if let Some(t) = self.active_terminal() {
            if let Some(s) = self.screen(t) {
                if s.selected {
                    self.act(Act::CopySelection(t));
                    self.act(Act::ClearSelection(t));
                    self.act(Act::Invalidate);
                    return;
                }
            }
        }
        self.act(Act::AskClipboard);
    }

    /// The wheel turns.
    pub fn on_wheel(&mut self, x: i64, y: i64, delta: i16, m: &Mods)
        requires
            old(self).wf(),
            chrome::point_ok(x as int, y as int),
        ensures
            final(self).wf(),
            final(self)@ == wheel_turned(old(self)@, x as int, y as int, delta as int, *m),
    {
        if m.ctrl && !m.shift && !m.alt {
            self.bump_font(
                if delta > 0 {
                    1000
                } else {
                    -1000
                },
            );
            return;
        }
        let lines: i32 = input::lines_of(delta);
        let (id, c) = match self.pane_content_at(x, y) {
            Some(p) => p,
            None => {
                return;
            },
        };
        let s = match self.screen(id) {
            Some(s) => s,
            None => {
                return;
            },
        };
        if self.active >= self.tabs.len() {
            return;
        }
        assert(self@.tabs[self.active as int] == self.tabs@[self.active as int]@);
        let (cols, rows): (u16, u16) = match self.tabs[self.active].pane(id) {
            Some(p) => match &p.kind {
                PaneKind::Term(t) => (t.cols, t.rows),
                PaneKind::Browser(_) => {
                    return;
                },
            },
            None => {
                return;
            },
        };
        let spot = chrome::cell_at(&c, x, y, self.cell_size());
        match input::wheel(s.mode, m, spot, cols, rows, lines) {
            Wheel::Nothing => {},
            Wheel::Send(b) => {
                self.push(Job::Write(id, b));
            },
            Wheel::Scroll(n) => {
                self.act(Act::Scroll { pane: id, lines: n });
                self.act(Act::Invalidate);
            },
        }
    }

    /// The shape of the pointer at a point.
    pub fn on_set_cursor(&self, x: i64, y: i64, m: &Mods, link: bool) -> (r: Cursor)
        requires
            self.wf(),
        ensures
            r == cursor_at(self@, x as int, y as int, *m, link),
    {
        if y < chrome::TABBAR_H {
            return Cursor::Arrow;
        }
        if let Some(lay) = self.layout() {
            if let Some(i) = chrome::divider_at(&lay, x, y) {
                return match lay.dividers[i].dir {
                    Dir::Row => Cursor::SizeWE,
                    Dir::Col => Cursor::SizeNS,
                };
            }
        }
        let (id, r) = match self.pane_at(x, y) {
            Some(p) => p,
            None => {
                return Cursor::Arrow;
            },
        };
        if self.is_multi() && y < r.y + chrome::PANE_TITLE_H {
            return if chrome::title_close_rect(r).contains(x, y) {
                Cursor::Arrow
            } else {
                Cursor::SizeAll
            };
        }
        if self.is_terminal(id) {
            if m.ctrl && !m.shift && !m.alt && link {
                Cursor::Hand
            } else {
                Cursor::IBeam
            }
        } else {
            Cursor::Arrow
        }
    }

    /// The terminal under a point, and the cell of its display there: where a
    /// link is looked for.
    pub fn link_spot(&self, x: i64, y: i64) -> (r: Option<(PaneId, CellSpot)>)
        requires
            self.wf(),
            chrome::point_ok(x as int, y as int),
        ensures
            r == (match content_hit(self@, x as int, y as int) {
                Some((id, c)) if window::is_term(window::current(self@)->0, id) => Some(
                    (id, chrome::spot_under(c, x as int, y as int, window::cell_of(self@))),
                ),
                _ => None,
            }),
    {
        match self.pane_content_at(x, y) {
            Some((id, c)) => {
                if self.is_terminal(id) {
                    Some((id, chrome::cell_at(&c, x, y, self.cell_size())))
                } else {
                    None
                }
            },
            None => None,
        }
    }
}

/// With Shift held the mouse is never a shell's: it is free to select.
pub proof fn law_shift_frees_mouse(
    w: Win,
    id: PaneId,
    content: Area,
    x: int,
    y: int,
    button: u8,
    pressed: bool,
    motion: bool,
    m: Mods,
)
    requires
        m.shift,
    ensures
        reported(w, id, content, x, y, button, pressed, motion, m) is None,
{
}

/// A press and a release in one place drag nothing: a tab, a pane or a divider
/// that was not moved stays where it is.
pub proof fn law_click_is_no_drag(
    w: Win,
    x: int,
    y: int,
    m: Mods,
    pointer: PixelPoint,
    elsewhere: Option<(i64, usize)>,
)
    requires
        match w.drag {
            DragModel::Tab { live, .. } => !live,
            DragModel::Pane { live, .. } => !live,
            DragModel::Divider { .. } => true,
            _ => false,
        },
    ensures
        left_released(w, x, y, m, pointer, elsewhere).tabs == w.tabs,
        left_released(w, x, y, m, pointer, elsewhere).active == w.active,
{
}

/// A press on a tab shows that tab and takes hold of it; one on its right end
/// closes it instead.
pub proof fn law_press_on_tab(w: Win, at: (i64, i64), m: Mods, link: Option<Seq<char>>, i: int)
    requires
        window::win_wf(w),
        !w.cheatsheet,
        0 <= i < w.tabs.len(),
        w.tabs.len() == window::bar_of(w).tabs,
        chrome::bar_ok(window::bar_of(w)),
        pane_tree::area_has(
            chrome::tab_area(window::bar_of(w), i),
            at.0 as int,
            at.1 as int,
        ),
    ensures
        ({
            let r = left_pressed(w, at, m, link);
            let t = chrome::tab_area(window::bar_of(w), i);
            if at.0 > t.x + t.w - 24 * DIP {
                &&& r.tabs == w.tabs
                &&& r.work.contains(Work::Act(Act::CloseTab(i as usize)))
                &&& r.drag == w.drag
            } else {
                &&& r.active == i
                &&& r.drag == (DragModel::Tab { idx: i as usize, press: at, cur: at, live: false })
            }
        }),
{
    let b = window::bar_of(w);
    chrome::law_tab_hit(b, at.0 as int, at.1 as int, i);
    let w1 = window::did(w, Act::Capture);
    assert(window::bar_of(w1) == b);
    if i + 1 <= b.tabs {
        chrome::law_tabs_in_line(b, i, i + 1);
    }
    window::law_switch_shows_tab(w1, i, 0, 0);
    let r = left_pressed(w, at, m, link);
    let t = chrome::tab_area(b, i);
    if at.0 > t.x + t.w - 24 * DIP {
        assert(r.work.last() == Work::Act(Act::CloseTab(i as usize)));
        assert(r.work[r.work.len() - 1] == Work::Act(Act::CloseTab(i as usize)));
    }
}

/// A press on the button beside the tabs opens a tab; elsewhere on the bar it
/// does nothing to them.
pub proof fn law_press_on_plus(w: Win, at: (i64, i64), m: Mods, link: Option<Seq<char>>)
    requires
        !w.cheatsheet,
        at.1 < 38 * DIP,
        chrome::tab_hit(window::bar_of(w), at.0 as int, at.1 as int) is None,
    ensures
        left_pressed(w, at, m, link).tabs == w.tabs,
        left_pressed(w, at, m, link).work == (if pane_tree::area_has(
            chrome::plus_area(window::bar_of(w)),
            at.0 as int,
            at.1 as int,
        ) {
            w.work.push(Work::Act(Act::Capture)).push(Work::Act(Act::ReleaseCapture)).push(
                Work::Act(Act::NewTab(None)),
            )
        } else {
            w.work.push(Work::Act(Act::Capture)).push(Work::Act(Act::ReleaseCapture))
        }),
{
    let w1 = window::did(w, Act::Capture);
    assert(window::bar_of(w1) == window::bar_of(w));
}

/// A press below the bar takes hold of the divider under it first, else it is
/// for the pane under it: which becomes the active one. A press on a title bar
/// takes hold of its pane, or closes it at the glyph.
pub proof fn law_press_on_pane(w: Win, at: (i64, i64), m: Mods, link: Option<Seq<char>>)
    requires
        !w.cheatsheet,
        at.1 >= 38 * DIP,
    ensures
        ({
            let (x, y) = (at.0 as int, at.1 as int);
            let r = left_pressed(w, at, m, link);
            match chrome::gutter_hit(fitting::gutters_on_show(w), x, y) {
                Some(g) => r.drag == (DragModel::Divider {
                    path: g.path,
                    index: g.index,
                    dir: g.dir,
                    last: at,
                }) && r.tabs == w.tabs,
                None => match chrome::pane_hit(fitting::panes_on_show(w), x, y) {
                    None => r.tabs == w.tabs && r.drag == w.drag,
                    Some((id, a)) => {
                        let title = fitting::titled(w) && y < a.y + 22 * DIP;
                        let w1 = window::did(w, Act::Capture);
                        &&& title && pane_tree::area_has(chrome::close_area(a), x, y) ==> r
                            == tab_ops::pane_closed(window::did(w1, Act::ReleaseCapture), id)
                        &&& title && !pane_tree::area_has(chrome::close_area(a), x, y) ==> r.drag
                            == (DragModel::Pane { id, press: at, cur: at, live: false })
                            && r.tabs == tab_ops::activated(w1, id).tabs
                        &&& !title ==> {
                            let w2 = tab_ops::activated(w1, id);
                            let c = chrome::content_area(a, fitting::titled(w));
                            r == if window::current(w2) matches Some(t) && window::is_browser(t, id) {
                                page_pressed(w2, id, c, x, y)
                            } else {
                                term_pressed(w2, id, c, x, y, m, link)
                            }
                        }
                    },
                },
            }
        }),
{
    let w1 = window::did(w, Act::Capture);
    assert(window::pane_area(w1) == window::pane_area(w));
    assert(window::current(w1) == window::current(w));
    assert(fitting::gutters_on_show(w1) == fitting::gutters_on_show(w));
    assert(fitting::panes_on_show(w1) == fitting::panes_on_show(w));
    assert(fitting::titled(w1) == fitting::titled(w));
}

/// The buttons of a page's toolbar do what they stand for, where they are drawn.
pub proof fn law_toolbar_buttons(
    w: Win,
    id: PaneId,
    c: Area,
    b: chrome::BrowserChrome,
    x: int,
    y: int,
)
    requires
        chrome::is_chrome(c, b),
        c.w >= 210 * DIP,
    ensures
        ({
            let did = |a: Act|
                page_pressed(w, id, c, x, y).work == w.work.push(Work::Act(a)).push(
                    Work::Act(Act::ReleaseCapture),
                );
            &&& pane_tree::area_has(b.back@, x, y) ==> did(Act::Back(id))
            &&& pane_tree::area_has(b.fwd@, x, y) ==> did(Act::Forward(id))
            &&& pane_tree::area_has(b.reload@, x, y) ==> did(Act::Reload(id))
            &&& pane_tree::area_has(b.dev@, x, y) ==> did(Act::Devtools(id))
            &&& pane_tree::area_has(b.close@, x, y) ==> page_pressed(w, id, c, x, y)
                == tab_ops::pane_closed(window::did(w, Act::ReleaseCapture), id)
            &&& y >= c.y + 34 * DIP ==> page_pressed(w, id, c, x, y) == window::did(
                w,
                Act::ReleaseCapture,
            )
        }),
{
    chrome::law_toolbar_order(c, b);
}

/// Ctrl and a press on a link opens the link. Otherwise a press on a terminal
/// that has the mouse is reported to it, as the left button; on any other it
/// begins a selection at the cell under the pointer.
pub proof fn law_press_on_terminal(
    w: Win,
    id: PaneId,
    c: Area,
    x: int,
    y: int,
    m: Mods,
    url: Seq<char>,
    p: crate::term_pane::TermPane,
    s: Screen,
)
    requires
        terminal(w, id) == Some((p, s)),
    ensures
        m.ctrl && !m.shift && !m.alt ==> term_pressed(w, id, c, x, y, m, Some(url)).work.last()
            == Work::OpenUrl(url),
        ({
            let r = term_pressed(w, id, c, x, y, m, None);
            let at = chrome::spot_under(c, x, y, window::cell_of(w));
            match input::mouse_bytes(s.mode, m, at, p.cols as int, p.rows as int, 0, true, false) {
                Some(b) => b.len() > 0 ==> r.work.last() == Work::Write(id, b) && r.drag is Idle,
                None => {
                    &&& r.drag is Select
                    &&& r.work[r.work.len() - 2] matches Work::Act(
                        Act::Select { pane, spot, right, words },
                    ) && pane == id && !words && right == at.right && spot == under_point(
                        w,
                        s,
                        c,
                        x,
                        y,
                    )
                },
            }
        }),
{
    let w1 = window::did(w, Act::FocusWindow);
    assert(window::screen_of(w1, id) == window::screen_of(w, id));
    assert(window::current(w1) == window::current(w));
    assert(terminal(w1, id) == terminal(w, id));
    assert(window::cell_of(w1) == window::cell_of(w));
}

/// Two presses select words, from the same cell on.
pub proof fn law_double_press_selects_words(
    w: Win,
    x: int,
    y: int,
    m: Mods,
    id: PaneId,
    c: Area,
    p: crate::term_pane::TermPane,
    s: Screen,
)
    requires
        y >= 38 * DIP,
        content_hit(w, x, y) == Some((id, c)),
        terminal(w, id) == Some((p, s)),
        s.mode & 0x2048 == 0 || m.shift,
    ensures
        left_doubled(w, x, y, m).drag is Select,
        left_doubled(w, x, y, m).work[w.work.len() as int] matches Work::Act(
            Act::Select { pane, spot, right, words },
        ) && pane == id && words && spot == under_point(w, s, c, x, y) && right
            == chrome::spot_under(c, x, y, window::cell_of(w)).right,
        left_doubled(w, x, 0, m) == w,
{
}

/// A selection that is drawn on reaches to the cell under the pointer, and is
/// copied when the button is let go.
pub proof fn law_selection_is_drawn_and_copied(
    w: Win,
    at: (i64, i64),
    held: bool,
    m: Mods,
    pointer: PixelPoint,
    elsewhere: Option<(i64, usize)>,
    t: TabModel,
    a: Area,
    p: crate::term_pane::TermPane,
    s: Screen,
)
    requires
        w.drag is Select,
        window::current(w) == Some(t),
        pane_tree::area_of(fitting::panes_on_show(w), t.active) == Some(a),
        terminal(w, t.active) == Some((p, s)),
    ensures
        pointer_moved(w, at, held, m).work[w.work.len() as int] matches Work::Act(
            Act::ExtendSelection { pane, spot, right },
        ) && pane == t.active && spot == under_point(
            w,
            s,
            chrome::content_area(a, fitting::titled(w)),
            at.0 as int,
            at.1 as int,
        ) && right == chrome::spot_under(
            chrome::content_area(a, fitting::titled(w)),
            at.0 as int,
            at.1 as int,
            window::cell_of(w),
        ).right,
        left_released(w, at.0 as int, at.1 as int, m, pointer, elsewhere).work == w.work.push(
            Work::Act(Act::ReleaseCapture),
        ).push(Work::Act(Act::CopySelection(t.active))),
{
    let w1 = Win { drag: DragModel::Idle, ..window::did(w, Act::ReleaseCapture) };
    assert(window::current(w1) == window::current(w));
}

/// What a drag of a divider is worth is its part of the extent, to the nearest
/// share below: as far to the right as to the right it goes.
pub proof fn law_drag_share(delta: int, extent: int)
    requires
        extent > 0,
        -extent <= delta <= extent,
    ensures
        drag_share(delta, extent) * extent <= delta * 0x4000_0000 < (drag_share(delta, extent) + 1)
            * extent,
        delta > 0 ==> drag_share(delta, extent) >= 0,
        delta < 0 ==> drag_share(delta, extent) < 0,
{
    let n = delta * 0x4000_0000;
    let q = n / extent;
    assert(q * extent <= n < (q + 1) * extent) by (nonlinear_arith)
        requires
            q == n / extent,
            extent > 0,
    ;
    assert(-2 * 0x4000_0000 <= q <= 2 * 0x4000_0000) by (nonlinear_arith)
        requires
            q * extent <= n < (q + 1) * extent,
            -extent <= delta <= extent,
            n == delta * 0x4000_0000,
            extent > 0,
    ;
    assert(n > 0 ==> q >= 0) by (nonlinear_arith)
        requires
            n < (q + 1) * extent,
            extent > 0,
    ;
    assert(n < 0 ==> q < 0) by (nonlinear_arith)
        requires
            q * extent <= n,
            extent > 0,
    ;
}

/// A divider that is dragged by half a unit or more moves: its split has its
/// shares changed by the part of the extent that the pointer has gone along it,
/// and the drag goes on from there.
pub proof fn law_divider_follows_pointer(
    w: Win,
    path: Seq<usize>,
    index: usize,
    dir: Dir,
    last: (i64, i64),
    at: (i64, i64),
    held: bool,
    m: Mods,
    t: TabModel,
    s: pane_tree::Tree,
)
    requires
        w.drag == (DragModel::Divider { path, index, dir, last }),
        window::current(w) == Some(t),
        pane_tree::tree_at(t.root, path) == Some(s),
        s is Split,
        index + 1 < s->fracs.len(),
        pane_tree::drag_room(t.root, path, index as int),
        extent_at(w, path, dir) > DIP,
        ({
            let d = if dir == Dir::Row {
                at.0 - last.0
            } else {
                at.1 - last.1
            };
            d >= 512 || d <= -512
        }),
    ensures
        ({
            let r = pointer_moved(w, at, held, m);
            let d = if dir == Dir::Row {
                at.0 - last.0
            } else {
                at.1 - last.1
            };
            &&& pane_tree::tree_at(r.tabs[w.active].root, path) matches Some(u) && u is Split
                && u->fracs == pane_tree::dragged(
                s->fracs,
                index as int,
                drag_share(d, extent_at(w, path, dir)),
            )
            &&& r.drag == (DragModel::Divider { path, index, dir, last: at })
            &&& r.work.contains(Work::Act(Act::Relayout))
        }),
{
    let d = if dir == Dir::Row {
        at.0 - last.0
    } else {
        at.1 - last.1
    };
    pane_tree::law_drag_hits_its_split(
        t.root,
        path,
        index as int,
        drag_share(d, extent_at(w, path, dir)),
        path,
    );
    let r = pointer_moved(w, at, held, m);
    assert(r.work[w.work.len() as int] == Work::Act(Act::Relayout));
}

/// A tab or a pane is dragged once the pointer has gone more than six units
/// either way, and from then on, whatever it does.
pub proof fn law_drag_needs_a_way(live: bool, press: (i64, i64), at: (i64, i64))
    ensures
        live ==> goes_live(live, press, at),
        !live ==> (goes_live(live, press, at) <==> !(-6144 <= at.0 - press.0 <= 6144 && -6144
            <= at.1 - press.1 <= 6144)),
{
}

/// A tab that is let go over its own bar takes the place under the pointer and
/// stays on show, the others keep their order; over another window's bar it goes
/// there; anywhere else it gets a window of its own.
pub proof fn law_tab_let_go(
    w: Win,
    idx: usize,
    x: int,
    y: int,
    pointer: PixelPoint,
    elsewhere: Option<(i64, usize)>,
)
    requires
        window::win_wf(w),
        idx < w.tabs.len(),
        chrome::bar_ok(window::bar_of(w)),
        w.active == idx,
    ensures
        ({
            let r = tab_dropped(w, idx, x, y, pointer, elsewhere);
            let here = 0 <= y < 38 * DIP && 0 <= x <= window::bar_of(w).width;
            let to = chrome::tab_slot(window::bar_of(w), x, w.tabs.len() - 1);
            &&& here ==> {
                &&& r.active == to
                &&& r.tabs.len() == w.tabs.len()
                &&& r.tabs[to] == w.tabs[idx as int]
                &&& r.tabs.remove(to) == w.tabs.remove(idx as int)
            }
            &&& !here ==> r.tabs == w.tabs
            &&& !here ==> (elsewhere matches Some((target, slot)) ==> r.work == w.work.push(
                Work::Act(Act::HandOver { tab: idx, window: target, slot }),
            ))
            &&& !here && elsewhere is None && w.tabs.len() > 1 ==> r.work == w.work.push(
                Work::Act(Act::TearOut { tab: idx, at: Some(pointer) }),
            ).push(Work::Act(Act::Invalidate))
        }),
{
    let b = window::bar_of(w);
    let to = chrome::tab_slot(b, x, w.tabs.len() - 1);
    chrome::law_tab_slot(b, x, w.tabs.len() - 1, 0);
    let r = tab_dropped(w, idx, x, y, pointer, elsewhere);
    if 0 <= y < 38 * DIP && 0 <= x <= b.width {
        assert(r.tabs.remove(to) =~= w.tabs.remove(idx as int));
    }
}

/// A pane that is let go does what its landing says: it moves beside the pane
/// there, changes places with it, or gets a tab of its own.
pub proof fn law_pane_let_go(w: Win, id: PaneId, x: int, y: int, t: TabModel)
    requires
        window::current(w) == Some(t),
    ensures
        match rearrange::landing(w, x, y, id) {
            Landing::NewTab => pane_dropped(w, id, x, y) == tab_ops::pane_moved_out(w, id),
            Landing::Nothing => pane_dropped(w, id, x, y).tabs == w.tabs,
            Landing::Swap { target, .. } => pane_dropped(w, id, x, y).tabs == w.tabs.update(
                w.active,
                rearrange::swapped_in_tab(t, id, target),
            ),
            Landing::Zone { target, dir, before, .. } => pane_dropped(w, id, x, y).tabs
                == w.tabs.update(
                w.active,
                rearrange::moved_in_tab(t, id, target, dir, before),
            ),
        },
{
    let w1 = match rearrange::landing(w, x, y, id) {
        Landing::Zone { target, dir, before, .. } => window::with_current(
            w,
            rearrange::moved_in_tab(t, id, target, dir, before),
        ),
        Landing::Swap { target, .. } => window::with_current(
            w,
            rearrange::swapped_in_tab(t, id, target),
        ),
        _ => w,
    };
    window::lemma_focus_keeps(window::did(w1, Act::Relayout));
}

/// What is dragged is let go when the button is: a tab and a pane only where the
/// drag has begun.
pub proof fn law_release_drops(
    w: Win,
    x: int,
    y: int,
    m: Mods,
    pointer: PixelPoint,
    elsewhere: Option<(i64, usize)>,
)
    ensures
        ({
            let r = left_released(w, x, y, m, pointer, elsewhere);
            let w1 = Win { drag: DragModel::Idle, ..window::did(w, Act::ReleaseCapture) };
            &&& w.drag matches DragModel::Tab { idx, live, .. } ==> (live && idx < w.tabs.len()
                ==> r == tab_dropped(w1, idx, x, y, pointer, elsewhere))
            &&& w.drag matches DragModel::Pane { id, live, .. } ==> (live ==> r == pane_dropped(
                w1,
                id,
                x,
                y,
            ))
            &&& w.drag is Divider ==> r == w1
        }),
{
}

/// The button that is let go is told to a terminal that has the mouse, as a
/// release of the left button.
pub proof fn law_release_is_reported(
    w: Win,
    x: int,
    y: int,
    m: Mods,
    pointer: PixelPoint,
    elsewhere: Option<(i64, usize)>,
    id: PaneId,
    c: Area,
    p: crate::term_pane::TermPane,
    s: Screen,
    b: Seq<u8>,
)
    requires
        w.drag is Idle,
        content_hit(w, x, y) == Some((id, c)),
        terminal(w, id) == Some((p, s)),
        input::mouse_bytes(
            s.mode,
            m,
            chrome::spot_under(c, x, y, window::cell_of(w)),
            p.cols as int,
            p.rows as int,
            0,
            false,
            false,
        ) == Some(b),
        b.len() > 0,
    ensures
        left_released(w, x, y, m, pointer, elsewhere).work.last() == Work::Write(id, b),
{
    let w1 = Win { drag: DragModel::Idle, ..window::did(w, Act::ReleaseCapture) };
    assert(window::current(w1) == window::current(w));
    assert(window::pane_area(w1) == window::pane_area(w));
    assert(fitting::panes_on_show(w1) == fitting::panes_on_show(w));
    assert(fitting::titled(w1) == fitting::titled(w));
    assert(window::cell_of(w1) == window::cell_of(w));
    assert(window::screen_of(w1, id) == window::screen_of(w, id));
}

/// The right button lists the profiles on the tab bar. On a pane it copies what
/// is selected, and takes the selection away, or else pastes; a terminal that
/// has the mouse is told of it instead, as the third button.
pub proof fn law_right_button(w: Win, at: (i64, i64), m: Mods, id: PaneId, c: Area)
    ensures
        at.1 < 38 * DIP ==> right_pressed(w, at, m).work == w.work.push(
            Work::Act(Act::ProfileMenu { x: at.0, y: at.1 }),
        ),
        at.1 >= 38 * DIP && content_hit(w, at.0 as int, at.1 as int) == Some((id, c)) ==> ({
            let r = right_pressed(w, at, m);
            let (x, y) = (at.0 as int, at.1 as int);
            match reported(w, id, c, x, y, 2, true, false, m) {
                Some(w1) => r == w1,
                None => {
                    let picked = match actions::active_term(w) {
                        Some(t) => window::screen_of(w, t) matches Some(s) && s.selected,
                        None => false,
                    };
                    if picked {
                        let t = actions::active_term(w)->0;
                        r.work == w.work.push(Work::Act(Act::CopySelection(t))).push(
                            Work::Act(Act::ClearSelection(t)),
                        ).push(Work::Act(Act::Invalidate))
                    } else {
                        r.work == w.work.push(Work::Act(Act::AskClipboard))
                    }
                },
            }
        }),
{
}

/// What is reported of the mouse goes to the terminal under it, with the cell
/// there and the button and motion as they are.
pub proof fn law_report_reaches_terminal(
    w: Win,
    id: PaneId,
    c: Area,
    x: int,
    y: int,
    button: u8,
    pressed: bool,
    motion: bool,
    m: Mods,
    p: crate::term_pane::TermPane,
    s: Screen,
)
    requires
        terminal(w, id) == Some((p, s)),
    ensures
        match input::mouse_bytes(
            s.mode,
            m,
            chrome::spot_under(c, x, y, window::cell_of(w)),
            p.cols as int,
            p.rows as int,
            button,
            pressed,
            motion,
        ) {
            Some(b) => reported(w, id, c, x, y, button, pressed, motion, m) == Some(
                if b.len() == 0 {
                    w
                } else {
                    window::with_work(w, Work::Write(id, b))
                },
            ),
            None => reported(w, id, c, x, y, button, pressed, motion, m) is None,
        },
{
}

/// Ctrl and the wheel make the font larger upwards and smaller downwards;
/// otherwise the wheel is for the terminal under the pointer: it scrolls up for
/// a turn up, or is sent what the turn comes to.
pub proof fn law_wheel_turns(
    w: Win,
    x: int,
    y: int,
    delta: int,
    m: Mods,
    id: PaneId,
    c: Area,
    p: crate::term_pane::TermPane,
    s: Screen,
)
    requires
        content_hit(w, x, y) == Some((id, c)),
        terminal(w, id) == Some((p, s)),
        -0x8000 <= delta < 0x8000,
    ensures
        m.ctrl && !m.shift && !m.alt && delta > 0 ==> wheel_turned(w, x, y, delta, m)
            == tab_ops::font_set(w, window::font_of(w) + 1000),
        m.ctrl && !m.shift && !m.alt && delta < 0 ==> wheel_turned(w, x, y, delta, m)
            == tab_ops::font_set(w, window::font_of(w) - 1000),
        !m.ctrl && s.mode & 0x2048 == 0 && s.mode & 0x9000 == 0 && delta > 20 ==> (wheel_turned(
            w,
            x,
            y,
            delta,
            m,
        ).work[w.work.len() as int] matches Work::Act(Act::Scroll { pane, lines }) && pane == id
            && lines > 0 && lines == input::wheel_lines(delta)),
        !m.ctrl && s.mode & 0x2048 == 0 && s.mode & 0x9000 == 0 && delta < -20 ==> (wheel_turned(
            w,
            x,
            y,
            delta,
            m,
        ).work[w.work.len() as int] matches Work::Act(Act::Scroll { pane, lines }) && pane == id
            && lines < 0),
{
    let k = s.mode;
    assert(k & 0x9000 == 0 ==> k & 0x1000 != 0x1000) by (bit_vector);
    input::law_wheel_lines(delta);
}

/// The pointer says what it would do: over a divider it shows the way that goes,
/// over a title bar that the pane can be moved, over text the bar that selects,
/// over a link with Ctrl a hand; over tabs, pages and nothing an arrow.
pub proof fn law_pointer_shapes(w: Win, x: int, y: int, m: Mods, link: bool)
    ensures
        ({
            let shape = cursor_at(w, x, y, m, link);
            let g = chrome::gutter_hit(fitting::gutters_on_show(w), x, y);
            let p = chrome::pane_hit(fitting::panes_on_show(w), x, y);
            &&& y < 38 * DIP ==> shape is Arrow
            &&& y >= 38 * DIP && g is Some ==> ((g->0).dir == Dir::Row ==> shape is SizeWE) && (
            (g->0).dir == Dir::Col ==> shape is SizeNS)
            &&& y >= 38 * DIP && g is None && p is None ==> shape is Arrow
            &&& y >= 38 * DIP && g is None ==> (p matches Some((id, r)) ==> {
                let title = fitting::titled(w) && y < r.y + 22 * DIP;
                let term = window::current(w) matches Some(t) && window::is_term(t, id);
                &&& title ==> (shape is Arrow <==> pane_tree::area_has(
                    chrome::close_area(r),
                    x,
                    y,
                )) && (shape is Arrow || shape is SizeAll)
                &&& !title && term && link && m.ctrl && !m.shift && !m.alt ==> shape is Hand
                &&& !title && term && !(link && m.ctrl && !m.shift && !m.alt) ==> shape is IBeam
                &&& !title && !term ==> shape is Arrow
            })
        }),
{
}

} // verus!
