//! Files dropped on a window: the pane under the pointer takes them.
use vstd::prelude::*;
use crate::chrome;
use crate::dragdrop;
use crate::dragdrop::{DropOn, DropOp, DropResult, Dropped};
use crate::fitting;
use crate::input;
use crate::pane_tree::PaneId;
use crate::tab_ops;
use crate::tabs::{PaneKind, TabModel};
use crate::term_pane;
use crate::window;
use crate::window::{Act, Job, TermWindow, Win, Work};

verus! {

/// What a pane of a tab is to a drop.
pub open spec fn drop_on(t: TabModel, id: PaneId, process: Option<String>) -> DropOn {
    if t.panes.dom().contains(id) {
        match t.panes[id].kind {
            PaneKind::Term(p) => DropOn::Shell {
                flavor: p.flavor,
                known: p.cwd_of(process) is Some,
            },
            PaneKind::Browser(_) => DropOn::Browser,
        }
    } else {
        DropOn::Nothing
    }
}

/// What a drop at a point would do.
pub open spec fn effect_under(
    w: Win,
    x: int,
    y: int,
    op: DropOp,
    process: Option<String>,
) -> u32 {
    match (chrome::pane_hit(fitting::panes_on_show(w), x, y), window::current(w)) {
        (Some((id, _)), Some(t)) => dragdrop::effect_at(drop_on(t, id, process), op),
        _ => dragdrop::EFFECT_NONE,
    }
}

/// The directory of a shell that files are dropped on.
pub open spec fn drop_dir(t: TabModel, id: PaneId, process: Option<String>) -> Option<Seq<char>> {
    match t.panes[id].kind {
        PaneKind::Term(p) => term_pane::opt_chars(p.cwd_of(process)),
        PaneKind::Browser(_) => None,
    }
}

/// The window with the work that a drop on a pane asks for.
pub open spec fn drop_asked(w: Win, id: PaneId, paths: Seq<String>, r: DropResult) -> Win {
    match r {
        DropResult::Nothing => w,
        DropResult::Navigate(url) => window::with_work(w, Work::Navigate(id, url)),
        DropResult::Type(t) => window::with_work(w, Work::Write(id, input::sent(t))),
        DropResult::Transfer { dest, cut } => window::with_work(
            w,
            Work::Transfer { paths, dest, cut },
        ),
    }
}

/// The window after files were dropped at a point: the pane there is active
/// now, and takes them.
pub open spec fn files_dropped(
    w: Win,
    paths: Seq<String>,
    op: DropOp,
    x: int,
    y: int,
    process: Option<String>,
) -> Win {
    match (chrome::pane_hit(fitting::panes_on_show(w), x, y), window::current(w)) {
        (Some((id, _)), Some(t)) => {
            let w1 = if t.active != id {
                window::did(
                    window::synced(window::with_current(w, TabModel { active: id, ..t })),
                    Act::Title,
                )
            } else {
                w
            };
            window::did(
                drop_asked(
                    w1,
                    id,
                    paths,
                    dragdrop::drop_result(
                        drop_on(t, id, process),
                        paths,
                        op,
                        drop_dir(t, id, process),
                    ),
                ),
                Act::Invalidate,
            )
        },
        _ => w,
    }
}

impl TermWindow {
    /// What a drop at a pixel would do. `process` is the directory of the process
    /// of the shell there, where it is known.
    pub fn drop_effect_at(&self, px: i32, py: i32, op: DropOp, process: Option<String>) -> (r: u32)
        requires
            self.wf(),
        ensures
            r == effect_under(
                self@,
                chrome::length_of(px as int, self.frame.dpi),
                chrome::length_of(py as int, self.frame.dpi),
                op,
                process,
            ),
    {
        let x: i64 = chrome::units_of(px, self.frame.dpi);
        let y: i64 = chrome::units_of(py, self.frame.dpi);
        match self.pane_at(x, y) {
            Some((id, _)) => {
                assert(self@.tabs[self.active as int] == self.tabs@[self.active as int]@);
                let (on, _) = self.drop_kind(id, process);
                dragdrop::drop_effect(&on, op)
            },
            None => dragdrop::EFFECT_NONE,
        }
    }

    /// What a pane is to a drop, and the directory of its shell.
    fn drop_kind(&self, id: PaneId, process: Option<String>) -> (r: (DropOn, Option<String>))
        requires
            self.wf(),
            window::current(self@) is Some,
        ensures
            ({
                let t = window::current(self@)->0;
                &&& r.0 == drop_on(t, id, process)
                &&& t.panes.dom().contains(id) ==> term_pane::opt_chars(r.1) == drop_dir(
                    t,
                    id,
                    process,
                )
            }),
    {
        assert(self@.tabs[self.active as int] == self.tabs@[self.active as int]@);
        match self.tabs[self.active].pane(id) {
            Some(p) => match &p.kind {
                PaneKind::Term(t) => {
                    let cwd = t.cwd(process);
                    (DropOn::Shell { flavor: t.flavor, known: cwd.is_some() }, cwd)
                },
                PaneKind::Browser(_) => (DropOn::Browser, None),
            },
            None => (DropOn::Nothing, None),
        }
    }

    /// Files are dropped at a pixel. `process` is the directory of the process
    /// of the shell there, where it is known.
    pub fn do_drop(
        &mut self,
        paths: Vec<String>,
        op: DropOp,
        px: i32,
        py: i32,
        process: Option<String>,
    )
        requires
            old(self).wf(),
            paths@.len() > 0,
        ensures
            final(self).wf(),
            final(self)@ == files_dropped(
                old(self)@,
                paths@,
                op,
                chrome::length_of(px as int, old(self)@.frame.dpi),
                chrome::length_of(py as int, old(self)@.frame.dpi),
                process,
            ),
    {
        let x: i64 = chrome::units_of(px, self.frame.dpi);
        let y: i64 = chrome::units_of(py, self.frame.dpi);
        let id: PaneId = match self.pane_at(x, y) {
            Some((id, _)) => id,
            None => {
                return;
            },
        };
        let i: usize = self.active;
        assert(self@.tabs[i as int] == self.tabs@[i as int]@);
        let ghost t = window::current(self@)->0;
        let (on, cwd) = self.drop_kind(id, process);
        let asked = dragdrop::dropped(&on, &paths, op, cwd);
        if self.tabs[i].active != id {
            tab_ops::set_active(&mut self.tabs[i], id);
            proof {
                self.lemma_one_tab(*old(self), i as int);
            }
            self.sync_pane_focus();
            self.act(Act::Title);
        }
        match asked {
            Dropped::Nothing => {},
            Dropped::Navigate(url) => {
                self.push(Job::Navigate(id, url));
            },
            Dropped::Type(t) => {
                self.push(Job::Write(id, input::bytes_of(t.as_str())));
            },
            Dropped::Transfer { dest, cut } => {
                self.push(Job::Transfer { paths, dest, cut });
            },
        }
        self.act(Act::Invalidate);
    }
}

/// Files dropped on a pane make it the active one, and reach the pane they were
/// dropped on: what they ask for is done there, and nowhere else.
pub proof fn law_drop_reaches_pane(
    w: Win,
    paths: Seq<String>,
    op: DropOp,
    x: int,
    y: int,
    process: Option<String>,
    t: TabModel,
    id: PaneId,
    k: crate::pane_tree::Area,
)
    requires
        chrome::pane_hit(fitting::panes_on_show(w), x, y) == Some((id, k)),
        window::current(w) == Some(t),
    ensures
        ({
            let r = files_dropped(w, paths, op, x, y, process);
            &&& window::current(r) matches Some(u) && u.active == id
            &&& r.tabs.len() == w.tabs.len()
        }),
{
}

/// Nothing comes of files dropped beside the panes.
pub proof fn law_drop_beside_panes(
    w: Win,
    paths: Seq<String>,
    op: DropOp,
    x: int,
    y: int,
    process: Option<String>,
)
    requires
        chrome::pane_hit(fitting::panes_on_show(w), x, y) is None,
    ensures
        files_dropped(w, paths, op, x, y, process) == w,
        effect_under(w, x, y, op, process) == 0,
{
}

/// What a drop asks for goes to the pane it is on: an address to be gone to,
/// text to be typed, or files for the directory of its shell.
pub proof fn law_drop_is_carried_out(w: Win, id: PaneId, paths: Seq<String>, s: Seq<char>, cut: bool)
    ensures
        drop_asked(w, id, paths, DropResult::Nothing) == w,
        drop_asked(w, id, paths, DropResult::Navigate(s)).work == w.work.push(Work::Navigate(id, s)),
        drop_asked(w, id, paths, DropResult::Type(s)).work == w.work.push(
            Work::Write(id, input::sent(s)),
        ),
        drop_asked(w, id, paths, DropResult::Transfer { dest: s, cut }).work == w.work.push(
            Work::Transfer { paths, dest: s, cut },
        ),
{
}

} // verus!
