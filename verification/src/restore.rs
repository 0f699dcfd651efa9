//! What is saved of a window, and how it is brought back.
use vstd::prelude::*;
use std::collections::HashMap;
use crate::chrome;
use crate::config;
use crate::config::{Config, Profile};
use crate::pane_tree;
use crate::pane_tree::PaneId;
use crate::scripting;
use crate::scripting::ProfileView;
use crate::session;
use crate::session::{LeafState, PaneType, TabState, WindowState};
use crate::tabs;
use crate::tabs::{Pane, PaneKind, Tab, TabModel};
use crate::text;
use crate::window;
use crate::window::{Act, TermWindow, Win};

verus! {

broadcast use vstd::std_specs::hash::group_hash_axioms;

/// The directory of a pane's process, where it is known.
pub open spec fn dir_from(dirs: Seq<(PaneId, String)>, id: PaneId, i: int) -> Option<String>
    decreases dirs.len() - i,
{
    if i < 0 || i >= dirs.len() {
        None
    } else if dirs[i].0 == id {
        Some(dirs[i].1)
    } else {
        dir_from(dirs, id, i + 1)
    }
}

/// What is needed to start a pane again: of a terminal its profile and
/// directory, of a browser its address.
pub open spec fn pane_leaf(t: TabModel, dirs: Seq<(PaneId, String)>, id: PaneId) -> LeafState {
    if t.panes.dom().contains(id) {
        match t.panes[id].kind {
            PaneKind::Term(p) => LeafState {
                kind: PaneType::Term,
                profile: Some(p.profile_name),
                cwd: p.cwd_of(dir_from(dirs, id, 0)),
                url: None,
            },
            PaneKind::Browser(b) => LeafState {
                kind: PaneType::Browser,
                profile: None,
                cwd: None,
                url: Some(b.url),
            },
        }
    } else {
        LeafState { kind: PaneType::Term, profile: None, cwd: None, url: None }
    }
}

/// What is saved of a tab: its font size, which pane is active, the shape of
/// its tree with the shares, and each of its panes in order.
pub open spec fn tab_saved(t: TabModel, dirs: Seq<(PaneId, String)>, s: TabState) -> bool {
    let l = pane_tree::leaves(t.root);
    &&& s.font_size == t.font_size
    &&& s.active_leaf < l.len() && l[s.active_leaf as int] == t.active
    &&& session::same_shape(t.root, s.tree@)
    &&& session::saved_leaves(s.tree@) == l.map_values(|id: PaneId| pane_leaf(t, dirs, id))
}

/// What is saved of a window besides its frame: which tab is active, and each
/// of its tabs in order.
pub open spec fn window_saved(w: Win, dirs: Seq<(PaneId, String)>, s: WindowState) -> bool {
    &&& s.active == w.active
    &&& s.tabs@.len() == w.tabs.len()
    &&& forall|i: int|
        0 <= i < s.tabs@.len() ==> tab_saved(w.tabs[i], dirs, #[trigger] s.tabs@[i])
}

fn dir_of(dirs: &Vec<(PaneId, String)>, id: PaneId) -> (r: Option<String>)
    ensures
        r == dir_from(dirs@, id, 0),
{
    let mut i: usize = 0;
    while i < dirs.len()
        invariant
            i <= dirs@.len(),
            dir_from(dirs@, id, 0) == dir_from(dirs@, id, i as int),
        decreases dirs@.len() - i,
    {
        if dirs[i].0 == id {
            return Some(dirs[i].1.clone());
        }
        i += 1;
    }
    None
}

fn leaf_of(tab: &Tab, dirs: &Vec<(PaneId, String)>, id: PaneId) -> (l: LeafState)
    ensures
        l == pane_leaf(tab@, dirs@, id),
{
    match tab.pane(id) {
        Some(p) => match &p.kind {
            PaneKind::Term(t) => LeafState {
                kind: PaneType::Term,
                profile: Some(t.profile_name.clone()),
                cwd: t.cwd(dir_of(dirs, id)),
                url: None,
            },
            PaneKind::Browser(b) => LeafState {
                kind: PaneType::Browser,
                profile: None,
                cwd: None,
                url: Some(b.url.clone()),
            },
        },
        None => LeafState { kind: PaneType::Term, profile: None, cwd: None, url: None },
    }
}

fn position(v: &Vec<PaneId>, id: PaneId) -> (r: usize)
    requires
        v@.contains(id),
    ensures
        r < v@.len(),
        v@[r as int] == id,
{
    let mut i: usize = 0;
    while i < v.len()
        invariant
            i <= v@.len(),
            v@.contains(id),
            forall|j: int| 0 <= j < i ==> v@[j] != id,
        decreases v@.len() - i,
    {
        if v[i] == id {
            return i;
        }
        i += 1;
    }
    0
}

/// What is saved of a tab.
pub fn save_tab(tab: &Tab, dirs: &Vec<(PaneId, String)>) -> (r: TabState)
    requires
        tabs::tab_wf(tab@),
    ensures
        tab_saved(tab@, dirs@, r),
{
    let l = pane_tree::collect_leaves(&tab.root);
    let active_leaf: usize = position(&l, tab.active);
    let f = |id: PaneId| -> (l: LeafState)
        ensures
            l == pane_leaf(tab@, dirs@, id),
        { leaf_of(tab, dirs, id) };
    let tree = session::snapshot_node(&tab.root, &f);
    proof {
        let g = |id: PaneId| pane_leaf(tab@, dirs@, id);
        session::lemma_snapshot_shape(tab.root@, tree@, f);
        session::lemma_snapshot_describes(tab.root@, tree@, f);
        assert(session::saved_leaves(tree@) =~= pane_tree::leaves(tab.root@).map_values(g));
    }
    TabState { font_size: tab.font_size, active_leaf, tree }
}

/// A command without its `--cd` and what follows that, which would override
/// the directory.
pub open spec fn without_cd(command: Seq<String>) -> Seq<String> {
    without_cd_from(command, 0)
}

pub open spec fn without_cd_from(command: Seq<String>, i: int) -> Seq<String>
    decreases command.len() - i,
{
    if i < 0 || i >= command.len() {
        command
    } else if command[i]@ == "--cd"@ {
        command.take(i) + command.skip(if i + 2 < command.len() {
            i + 2
        } else {
            command.len() as int
        })
    } else {
        without_cd_from(command, i + 1)
    }
}

/// The profile that a saved terminal is started with: the one it had, or else
/// the default.
pub open spec fn saved_profile(c: Config, leaf: LeafState) -> Option<int> {
    let named = match leaf.profile {
        Some(n) => config::profile_named(c.profiles@, n@),
        None => None,
    };
    match named {
        Some(i) => Some(i),
        None => config::default_index(c.profiles@, c.default_profile@),
    }
}

/// A profile, to be started in a saved directory where there is one.
pub open spec fn placed_profile(p: ProfileView, cwd: Option<String>) -> ProfileView {
    match cwd {
        Some(c) => ProfileView { cwd: Some(c), command: without_cd(p.command), ..p },
        None => p,
    }
}

fn drop_cd(command: &mut Vec<String>)
    ensures
        final(command)@ == without_cd(old(command)@),
{
    let ghost all = command@;
    let n: usize = command.len();
    let mut i: usize = 0;
    while i < n
        invariant
            i <= n,
            n == all.len(),
            all == old(command)@,
            command@ == all,
            without_cd(all) == without_cd_from(all, i as int),
        decreases n - i,
    {
        if text::same(command[i].as_str(), "--cd") {
            command.remove(i);
            if i < command.len() {
                command.remove(i);
            }
            assert(command@ =~= without_cd(all));
            return;
        }
        i += 1;
    }
}

/// The profile to start for a saved terminal; none where there are no profiles.
pub fn restored_profile(cfg: &Config, leaf: &LeafState) -> (r: Option<Profile>)
    ensures
        match r {
            Some(p) => saved_profile(*cfg, *leaf) matches Some(i) && 0 <= i < cfg.profiles@.len()
                && scripting::profile_view(p) == placed_profile(
                scripting::profile_view(cfg.profiles@[i]),
                leaf.cwd,
            ),
            None => saved_profile(*cfg, *leaf) is None,
        },
{
    let named: Option<usize> = match &leaf.profile {
        Some(n) => config::find_profile(&cfg.profiles, n.as_str()),
        None => None,
    };
    let picked: Option<usize> = match named {
        Some(i) => Some(i),
        None => cfg.default_profile(),
    };
    match picked {
        Some(i) => {
            let mut p = cfg.profiles[i].copy();
            if let Some(c) = &leaf.cwd {
                p.cwd = Some(c.clone());
                drop_cd(&mut p.command);
            }
            Some(p)
        },
        None => None,
    }
}

/// The address that a saved browser goes to.
pub fn restored_url(leaf: &LeafState) -> (r: String)
    ensures
        r@ == match leaf.url {
            Some(u) => u@,
            None => "about:blank"@,
        },
{
    match &leaf.url {
        Some(u) => u.clone(),
        None => text::owned("about:blank"),
    }
}

/// The ids that the panes of a saved tab got.
pub open spec fn pane_ids(v: Seq<Option<Pane>>) -> Seq<Option<PaneId>> {
    v.map_values(
        |p: Option<Pane>|
            match p {
                Some(p) => Some(p.id),
                None => None,
            },
    )
}

/// No two panes have one id.
pub open spec fn ids_differ(v: Seq<Option<PaneId>>) -> bool {
    forall|i: int, j: int|
        0 <= i < j < v.len() && (#[trigger] v[i]) is Some && (#[trigger] v[j]) is Some ==> v[i]
            != v[j]
}

/// A tab made of a saved one, with those of its panes that could be started.
pub open spec fn tab_restored(s: TabState, panes: Seq<Option<Pane>>, t: TabModel) -> bool {
    let l = pane_tree::leaves(t.root);
    &&& session::rebuilt(s.tree@, pane_ids(panes)) == Some(t.root)
    &&& forall|i: int|
        0 <= i < panes.len() ==> ((#[trigger] panes[i]) matches Some(p) ==> t.panes.dom().contains(
            p.id,
        ) && t.panes[p.id] == p)
    &&& t.active == (if s.active_leaf < l.len() {
        l[s.active_leaf as int]
    } else {
        l[0]
    })
    &&& t.zoomed is None
    &&& t.font_size == s.font_size
    &&& t.cell is None
}

proof fn lemma_started(ids: Seq<Option<PaneId>>, id: PaneId)
    ensures
        session::started(ids).contains(id) <==> ids.contains(Some(id)),
        session::started(ids).len() <= ids.len(),
    decreases ids.len(),
{
    let s = session::started(ids);
    if ids.len() > 0 {
        let init = ids.drop_last();
        let p = session::started(init);
        lemma_started(init, id);
        if p.contains(id) {
            let k = choose|k: int| 0 <= k < p.len() && p[k] == id;
            assert(s[k] == id);
        }
        if init.contains(Some(id)) {
            let k = choose|k: int| 0 <= k < init.len() && init[k] == Some(id);
            assert(ids[k] == Some(id));
        }
        if ids.last() == Some(id) {
            assert(s[s.len() - 1] == id);
            assert(ids[ids.len() - 1] == Some(id));
        }
        if s.contains(id) && ids.last() != Some(id) {
            let k = choose|k: int| 0 <= k < s.len() && s[k] == id;
            assert(p[k] == id);
        }
        if ids.contains(Some(id)) && ids.last() != Some(id) {
            let k = choose|k: int| 0 <= k < ids.len() && ids[k] == Some(id);
            assert(init[k] == Some(id));
        }
    }
}

proof fn lemma_started_once(ids: Seq<Option<PaneId>>)
    requires
        ids_differ(ids),
    ensures
        session::started(ids).no_duplicates(),
    decreases ids.len(),
{
    if ids.len() > 0 {
        let init = ids.drop_last();
        assert(ids_differ(init)) by {
            assert forall|i: int, j: int|
                0 <= i < j < init.len() && (#[trigger] init[i]) is Some && (#[trigger] init[j]) is Some implies init[i]
                != init[j] by {
                assert(ids[i] == init[i] && ids[j] == init[j]);
            }
        }
        lemma_started_once(init);
        if let Some(id) = ids.last() {
            lemma_started(init, id);
            if init.contains(Some(id)) {
                let k = choose|k: int| 0 <= k < init.len() && init[k] == Some(id);
                assert(ids[k] == ids[ids.len() - 1]);
            }
        }
    }
}

fn by_id(panes: Vec<Option<Pane>>) -> (r: HashMap<PaneId, Pane>)
    requires
        ids_differ(pane_ids(panes@)),
    ensures
        forall|id: PaneId| #[trigger]
            r@.dom().contains(id) <==> pane_ids(panes@).contains(Some(id)),
        forall|id: PaneId| #[trigger] r@.dom().contains(id) ==> r@[id].id == id,
        forall|i: int|
            0 <= i < panes@.len() ==> ((#[trigger] panes@[i]) matches Some(p)
                ==> r@.dom().contains(p.id) && r@[p.id] == p),
{
    let ghost all = panes@;
    let ghost ids = pane_ids(all);
    let mut rest = panes;
    let mut r: HashMap<PaneId, Pane> = HashMap::new();
    let mut i: usize = rest.len();
    assert(ids.skip(i as int) =~= Seq::empty());
    while i > 0
        invariant
            i <= all.len(),
            ids == pane_ids(all),
            ids_differ(ids),
            rest@ == all.take(i as int),
            forall|id: PaneId| #[trigger]
                r@.dom().contains(id) <==> ids.skip(i as int).contains(Some(id)),
            forall|id: PaneId| #[trigger] r@.dom().contains(id) ==> r@[id].id == id,
            forall|k: int|
                i <= k < all.len() ==> ((#[trigger] all[k]) matches Some(p)
                    ==> r@.dom().contains(p.id) && r@[p.id] == p),
        decreases i,
    {
        i -= 1;
        let ghost tail = ids.skip(i + 1);
        assert(ids.skip(i as int) =~= seq![ids[i as int]] + tail);
        assert(rest@.last() == all[i as int]);
        let ghost had = r@;
        match rest.pop() {
            Some(Some(p)) => {
                let ghost pane = p;
                assert(ids[i as int] == Some(p.id));
                assert forall|k: int| i < k < all.len() implies ((#[trigger] all[k]) matches Some(
                    q,
                ) ==> q.id != p.id) by {
                    assert(ids[k] == match all[k] {
                        Some(q) => Some(q.id),
                        None => None,
                    });
                    if all[k] is Some {
                        assert(ids[i as int] != ids[k]);
                    }
                }
                r.insert(p.id, p);
                assert(r@ == had.insert(pane.id, pane));
            },
            _ => {
                assert(ids[i as int] is None);
            },
        }
        assert(rest@ =~= all.take(i as int));
        let ghost now = ids.skip(i as int);
        assert forall|id: PaneId| #[trigger]
            r@.dom().contains(id) <==> now.contains(Some(id)) by {
            if tail.contains(Some(id)) {
                let k = choose|k: int| 0 <= k < tail.len() && tail[k] == Some(id);
                assert(now[k + 1] == Some(id));
            }
            if now.contains(Some(id)) {
                let k = choose|k: int| 0 <= k < now.len() && now[k] == Some(id);
                if k > 0 {
                    assert(tail[k - 1] == Some(id));
                }
            }
            if ids[i as int] == Some(id) {
                assert(now[0] == Some(id));
            }
            assert(had.dom().contains(id) <==> tail.contains(Some(id)));
        }
    }
    assert(ids.skip(0) =~= ids);
    r
}

fn ids_of(panes: &Vec<Option<Pane>>) -> (r: Vec<Option<PaneId>>)
    ensures
        r@ == pane_ids(panes@),
{
    let mut r: Vec<Option<PaneId>> = Vec::new();
    let mut i: usize = 0;
    while i < panes.len()
        invariant
            i <= panes@.len(),
            r@ == pane_ids(panes@).take(i as int),
        decreases panes@.len() - i,
    {
        r.push(
            match &panes[i] {
                Some(p) => Some(p.id),
                None => None,
            },
        );
        assert(pane_ids(panes@).take(i + 1) =~= pane_ids(panes@).take(i as int).push(
            pane_ids(panes@)[i as int],
        ));
        i += 1;
    }
    assert(pane_ids(panes@).take(i as int) =~= pane_ids(panes@));
    r
}

/// A tab made of a saved one. `panes` are its panes in order, without those
/// that could not be started; none where none could.
pub fn restore_tab(s: &TabState, panes: Vec<Option<Pane>>) -> (r: Option<Tab>)
    requires
        session::shares_ok(s.tree@),
        panes@.len() == session::leaf_count(s.tree@),
        panes@.len() <= pane_tree::MAX_PANES,
        ids_differ(pane_ids(panes@)),
    ensures
        match r {
            Some(t) => tabs::tab_wf(t@) && tab_restored(*s, panes@, t@),
            None => session::rebuilt(s.tree@, pane_ids(panes@)) is None,
        },
{
    let ghost all = panes@;
    let ghost given = pane_ids(all);
    let ids = ids_of(&panes);
    let root = match session::rebuild_node(&s.tree, ids.as_slice()) {
        Some(n) => n,
        None => {
            return None;
        },
    };
    proof {
        session::law_rebuilt_wf(s.tree@, given);
        lemma_started_once(given);
        pane_tree::lemma_has_leaf(root@);
        lemma_started(given, 0);
    }
    let l = pane_tree::collect_leaves(&root);
    let active: PaneId = if s.active_leaf < l.len() {
        l[s.active_leaf]
    } else {
        l[0]
    };
    let map = by_id(panes);
    let t = Tab { root, panes: map, active, zoomed: None, font_size: s.font_size, cell: None };
    proof {
        let m = t@;
        assert forall|id: PaneId|
            #![trigger m.panes.dom().contains(id)]
            #![trigger pane_tree::leaves(m.root).contains(id)]
            m.panes.dom().contains(id) <==> pane_tree::leaves(m.root).contains(id) by {
            lemma_started(given, id);
        }
        assert(pane_tree::leaves(m.root).contains(active));
    }
    Some(t)
}

/// Whether a tab has a font size of its own.
pub open spec fn sized(t: TabModel, size: i32) -> bool {
    !(-10 <= t.font_size - size <= 10)
}

/// The window with fonts asked for, for those of the first `n` tabs from
/// `from` on that have a size of their own.
pub open spec fn fonts_asked(w: Win, from: int, n: int) -> Win
    decreases n - from,
{
    if n <= from {
        w
    } else {
        let w1 = fonts_asked(w, from, n - 1);
        if n - 1 < w.tabs.len() && sized(w.tabs[n - 1], w.settings.font_size) {
            window::did(
                w1,
                Act::BuildFonts { tab: (n - 1) as usize, size: w.tabs[n - 1].font_size },
            )
        } else {
            w1
        }
    }
}

/// The window with restored tabs behind its own, the saved one of them active;
/// where there is none, a new tab is asked for.
pub open spec fn tabs_restored(w: Win, ts: Seq<TabModel>, active: int) -> Win {
    let all = w.tabs + ts;
    let w1 = Win { tabs: all, ..w };
    if all.len() == 0 {
        window::did(w, Act::NewTab(None))
    } else {
        window::switched(
            fonts_asked(w1, w.tabs.len() as int, all.len() as int),
            if active < all.len() - 1 {
                active
            } else {
                all.len() - 1
            },
        )
    }
}

proof fn lemma_fonts_asked(w: Win, from: int, n: int)
    requires
        from <= n,
    ensures
        fonts_asked(w, from, n) == (Win { work: fonts_asked(w, from, n).work, ..w }),
    decreases n - from,
{
    if n > from {
        lemma_fonts_asked(w, from, n - 1);
    }
}

proof fn lemma_asked_by(a: Win, b: Win, from: int, n: int)
    requires
        from <= n,
        a.tabs == b.tabs,
        a.settings == b.settings,
        a.work == b.work,
    ensures
        fonts_asked(a, from, n).work == fonts_asked(b, from, n).work,
    decreases n - from,
{
    if n > from {
        lemma_asked_by(a, b, from, n - 1);
        lemma_fonts_asked(a, from, n - 1);
        lemma_fonts_asked(b, from, n - 1);
    }
}

impl TermWindow {
    /// What is saved of the window, given its frame on the screen and the
    /// directories of its shells; nothing where it has no tabs.
    pub fn snapshot(
        &self,
        left: i32,
        top: i32,
        right: i32,
        bottom: i32,
        dirs: &Vec<(PaneId, String)>,
    ) -> (r: Option<WindowState>)
        requires
            self.wf(),
            i32::MIN <= right - left <= i32::MAX,
            i32::MIN <= bottom - top <= i32::MAX,
        ensures
            match r {
                Some(s) => {
                    &&& self@.tabs.len() > 0
                    &&& s.x == left && s.y == top && s.w == right - left && s.h == bottom - top
                    &&& window_saved(self@, dirs@, s)
                },
                None => self@.tabs.len() == 0,
            },
    {
        if self.tabs.len() == 0 {
            return None;
        }
        let mut out: Vec<TabState> = Vec::new();
        let mut i: usize = 0;
        while i < self.tabs.len()
            invariant
                i <= self.tabs@.len(),
                self.wf(),
                out@.len() == i,
                forall|k: int|
                    0 <= k < i ==> tab_saved(self@.tabs[k], dirs@, #[trigger] out@[k]),
            decreases self.tabs@.len() - i,
        {
            assert(self@.tabs[i as int] == self.tabs@[i as int]@);
            out.push(save_tab(&self.tabs[i], dirs));
            i += 1;
        }
        Some(
            WindowState {
                x: left,
                y: top,
                w: right - left,
                h: bottom - top,
                active: self.active,
                tabs: out,
            },
        )
    }

    /// Take restored tabs in, and show the one that was active.
    pub fn restore_tabs(&mut self, restored: Vec<Tab>, active: usize)
        requires
            old(self).wf(),
            window::tabs_ok(window::tab_models(restored@)),
            old(self)@.tabs.len() + restored@.len() <= chrome::MAX_TABS,
        ensures
            final(self).wf(),
            final(self)@ == tabs_restored(
                old(self)@,
                window::tab_models(restored@),
                active as int,
            ),
    {
        let ghost w = self@;
        let ghost ts = window::tab_models(restored@);
        let from: usize = self.tabs.len();
        let mut restored = restored;
        self.tabs.append(&mut restored);
        let n: usize = self.tabs.len();
        assert(self@.tabs =~= w.tabs + ts);
        if n == 0 {
            assert(self@ =~= w);
            self.act(Act::NewTab(None));
            return;
        }
        let to: usize = if active < n - 1 {
            active
        } else {
            n - 1
        };
        let ghost w1 = Win { tabs: w.tabs + ts, ..w };
        self.active = to;
        let ghost w2 = self@;
        proof {
            assert(w2 =~= Win { active: to as int, ..w1 });
            assert forall|i: int| 0 <= i < w2.tabs.len() implies tabs::tab_wf(
                #[trigger] w2.tabs[i],
            ) by {
                if i < w.tabs.len() {
                    assert(w2.tabs[i] == w.tabs[i]);
                } else {
                    assert(w2.tabs[i] == ts[i - w.tabs.len()]);
                }
            }
        }
        let mut i: usize = from;
        while i < n
            invariant
                from <= i <= n,
                n == w2.tabs.len(),
                self.wf(),
                self@ == fonts_asked(w2, from as int, i as int),
            decreases n - i,
        {
            proof {
                lemma_fonts_asked(w2, from as int, i as int);
            }
            assert(self@.tabs[i as int] == self.tabs@[i as int]@);
            let size: i32 = self.tabs[i].font_size;
            let d: i64 = size as i64 - self.settings.font_size as i64;
            if d < -10 || d > 10 {
                self.act(Act::BuildFonts { tab: i, size });
            }
            i += 1;
        }
        proof {
            lemma_fonts_asked(w2, from as int, n as int);
            lemma_fonts_asked(w1, from as int, n as int);
            lemma_asked_by(w1, w2, from as int, n as int);
        }
        self.switch_tab(to);
    }
}

/// Whether every pane of a saved tab could be started.
pub open spec fn all_alive(s: TabState, panes: Seq<Option<Pane>>) -> bool {
    &&& panes.len() == session::leaf_count(s.tree@)
    &&& forall|i: int| 0 <= i < panes.len() ==> (#[trigger] panes[i]) is Some
}

/// Whether `r` is the tab `t` again, saved as `s` and with `panes` started in
/// place of its own: of the same shape and shares, each pane where the one was
/// whose description it was started from, the pane active whose place was.
pub open spec fn tab_back(
    t: TabModel,
    dirs: Seq<(PaneId, String)>,
    s: TabState,
    panes: Seq<Option<Pane>>,
    r: TabModel,
) -> bool {
    let was = pane_tree::leaves(t.root);
    let l = pane_tree::leaves(r.root);
    &&& session::same_shape(t.root, s.tree@)
    &&& session::same_shape(r.root, s.tree@)
    &&& was.len() == l.len() == panes.len() == session::saved_leaves(s.tree@).len()
    &&& forall|i: int|
        0 <= i < l.len() ==> {
            &&& panes[i] matches Some(p) && p.id == #[trigger] l[i] && r.panes.dom().contains(p.id)
                && r.panes[p.id] == p
            &&& session::saved_leaves(s.tree@)[i] == pane_leaf(t, dirs, was[i])
            &&& was[i] == t.active ==> l[i] == r.active
        }
    &&& r.font_size == t.font_size
}

/// Saving a tab and restoring it with every pane started gives the tab again,
/// whichever ids the panes got.
pub proof fn law_tab_roundtrip(
    t: TabModel,
    dirs: Seq<(PaneId, String)>,
    s: TabState,
    panes: Seq<Option<Pane>>,
)
    requires
        tabs::tab_wf(t),
        pane_tree::full(t.root),
        tab_saved(t, dirs, s),
        all_alive(s, panes),
    ensures
        session::shares_ok(s.tree@),
        panes.len() == pane_tree::leaves(t.root).len(),
        session::rebuilt(s.tree@, pane_ids(panes)) is Some,
        forall|r: TabModel| #[trigger]
            tab_restored(s, panes, r) ==> tab_back(t, dirs, s, panes, r),
{
    let ids = Seq::new(panes.len(), |i: int| panes[i]->0.id);
    assert(pane_ids(panes) =~= session::all_started(ids));
    session::law_shape_roundtrip(t.root, s.tree@, ids);
    let was = pane_tree::leaves(t.root);
    assert forall|r: TabModel| #[trigger] tab_restored(s, panes, r) implies tab_back(
        t,
        dirs,
        s,
        panes,
        r,
    ) by {
        let l = pane_tree::leaves(r.root);
        assert forall|i: int| 0 <= i < l.len() implies {
            &&& panes[i] matches Some(p) && p.id == #[trigger] l[i] && r.panes.dom().contains(p.id)
                && r.panes[p.id] == p
            &&& session::saved_leaves(s.tree@)[i] == pane_leaf(t, dirs, was[i])
            &&& was[i] == t.active ==> l[i] == r.active
        } by {
            assert(panes[i] is Some);
            assert(l[i] == ids[i]);
        }
    }
}

/// A window that is saved and restored with every pane started has its tabs
/// again in their order, whichever ids their panes got, and shows the tab that
/// it showed.
pub proof fn law_window_roundtrip(
    w: Win,
    dirs: Seq<(PaneId, String)>,
    s: WindowState,
    fresh: Win,
    panes: Seq<Seq<Option<Pane>>>,
    ts: Seq<TabModel>,
)
    requires
        window::win_wf(w),
        w.tabs.len() > 0,
        forall|i: int| 0 <= i < w.tabs.len() ==> pane_tree::full((#[trigger] w.tabs[i]).root),
        window_saved(w, dirs, s),
        fresh.tabs.len() == 0,
        ts.len() == w.tabs.len(),
        panes.len() == w.tabs.len(),
        forall|i: int|
            0 <= i < ts.len() ==> all_alive(s.tabs@[i], #[trigger] panes[i]) && tab_restored(
                s.tabs@[i],
                panes[i],
                ts[i],
            ),
    ensures
        ({
            let r = tabs_restored(fresh, ts, s.active as int);
            &&& r.active == w.active
            &&& r.tabs.len() == w.tabs.len()
            &&& forall|i: int|
                0 <= i < r.tabs.len() ==> {
                    &&& #[trigger] r.tabs[i] == tabs::shown_tab(ts[i], i == w.active)
                    &&& tab_back(w.tabs[i], dirs, s.tabs@[i], panes[i], ts[i])
                }
        }),
{
    let all = fresh.tabs + ts;
    assert(all =~= ts);
    let w1 = Win { tabs: all, ..fresh };
    let n = all.len() as int;
    let asked = fonts_asked(w1, 0, n);
    lemma_fonts_asked(w1, 0, n);
    let r = tabs_restored(fresh, ts, s.active as int);
    assert(r == window::switched(asked, w.active));
    let w2 = Win { tabs: window::only_shown(ts, w.active), active: w.active, ..asked };
    window::lemma_focus_keeps(window::did(window::did(w2, Act::Relayout), Act::Title));
    assert(r.tabs == window::only_shown(ts, w.active));
    assert forall|i: int| 0 <= i < r.tabs.len() implies {
        &&& #[trigger] r.tabs[i] == tabs::shown_tab(ts[i], i == w.active)
        &&& tab_back(w.tabs[i], dirs, s.tabs@[i], panes[i], ts[i])
    } by {
        assert(tabs::tab_wf(w.tabs[i]));
        assert(all_alive(s.tabs@[i], panes[i]));
        assert(tab_saved(w.tabs[i], dirs, s.tabs@[i]));
        law_tab_roundtrip(w.tabs[i], dirs, s.tabs@[i], panes[i]);
    }
}

/// A terminal is saved by its profile and its directory, a page by its address.
pub proof fn law_pane_is_described(t: TabModel, dirs: Seq<(PaneId, String)>, id: PaneId)
    requires
        t.panes.dom().contains(id),
    ensures
        t.panes[id].kind matches PaneKind::Term(p) ==> ({
            let l = pane_leaf(t, dirs, id);
            &&& l.kind == PaneType::Term
            &&& l.profile == Some(p.profile_name)
            &&& l.url is None
            &&& p.osc7_cwd is Some ==> l.cwd == p.osc7_cwd
        }),
        t.panes[id].kind matches PaneKind::Browser(b) ==> ({
            let l = pane_leaf(t, dirs, id);
            &&& l.kind == PaneType::Browser
            &&& l.url == Some(b.url)
            &&& l.profile is None && l.cwd is None
        }),
{
}

/// A command that is to start in a directory loses its first `--cd` and the word
/// behind it, and nothing else.
pub proof fn law_cd_is_dropped(a: Seq<String>, cd: String, word: String, b: Seq<String>)
    requires
        cd@ == "--cd"@,
        forall|i: int| 0 <= i < a.len() ==> (#[trigger] a[i])@ != "--cd"@,
    ensures
        without_cd(a) == a,
        without_cd(a + seq![cd, word] + b) == a + b,
        without_cd(a + seq![cd]) == a,
{
    lemma_no_cd(a, 0);
    let s = a + seq![cd, word] + b;
    let n = a.len() as int;
    lemma_cd_at(s, 0, n);
    assert(s.take(n) =~= a);
    if n + 2 < s.len() {
        assert(s.skip(n + 2) =~= b);
    } else {
        assert(b =~= Seq::empty());
        assert(s.skip(s.len() as int) =~= b);
    }
    let e = a + seq![cd];
    lemma_cd_at(e, 0, n);
    assert(e.take(n) =~= a);
    assert(e.skip(e.len() as int) =~= Seq::empty());
    assert(without_cd(e) =~= a);
}

proof fn lemma_no_cd(a: Seq<String>, i: int)
    requires
        0 <= i,
        forall|j: int| 0 <= j < a.len() ==> (#[trigger] a[j])@ != "--cd"@,
    ensures
        without_cd_from(a, i) == a,
    decreases a.len() - i,
{
    if i < a.len() {
        assert(a[i]@ != "--cd"@);
        lemma_no_cd(a, i + 1);
    }
}

proof fn lemma_cd_at(s: Seq<String>, i: int, n: int)
    requires
        0 <= i <= n < s.len(),
        s[n]@ == "--cd"@,
        forall|j: int| 0 <= j < n ==> (#[trigger] s[j])@ != "--cd"@,
    ensures
        without_cd_from(s, i) == s.take(n) + s.skip(if n + 2 < s.len() {
            n + 2
        } else {
            s.len() as int
        }),
    decreases n - i,
{
    if i < n {
        assert(s[i]@ != "--cd"@);
        lemma_cd_at(s, i + 1, n);
    }
}

/// A saved terminal comes back in its directory, with the command of its profile;
/// without a directory its profile is as it was.
pub proof fn law_profile_is_placed(p: ProfileView, cwd: Option<String>)
    ensures
        placed_profile(p, cwd).name == p.name,
        cwd is Some ==> placed_profile(p, cwd).cwd == cwd,
        cwd is None ==> placed_profile(p, cwd) == p,
{
}

/// Restored tabs stand behind those that are there, and the saved one is shown, or
/// the last where there are not so many.
pub proof fn law_restored_tabs(w: Win, ts: Seq<TabModel>, active: int)
    requires
        w.tabs.len() + ts.len() > 0,
        0 <= active,
    ensures
        ({
            let r = tabs_restored(w, ts, active);
            let n = w.tabs.len() + ts.len();
            &&& r.tabs.len() == n
            &&& active < n ==> r.active == active
            &&& active >= n ==> r.active == n - 1
        }),
{
    let all = w.tabs + ts;
    lemma_fonts_keep_tabs(Win { tabs: all, ..w }, w.tabs.len() as int, all.len() as int);
}

proof fn lemma_fonts_keep_tabs(w: Win, from: int, n: int)
    ensures
        fonts_asked(w, from, n).tabs == w.tabs,
    decreases n - from,
{
    if n > from {
        lemma_fonts_keep_tabs(w, from, n - 1);
    }
}

/// A saved terminal has the profile that it had, the first of that name; one whose
/// profile is gone gets the default.
pub proof fn law_saved_profile(c: Config, leaf: LeafState, i: int)
    requires
        0 <= i < c.profiles@.len(),
        forall|j: int|
            0 <= j < i ==> (#[trigger] c.profiles@[j]).name@ != c.profiles@[i].name@,
    ensures
        leaf.profile matches Some(n) ==> (n@ == c.profiles@[i].name@ ==> saved_profile(c, leaf)
            == Some(i)),
        leaf.profile is None ==> saved_profile(c, leaf) == config::default_index(
            c.profiles@,
            c.default_profile@,
        ),
{
    lemma_profile_at(c.profiles@, c.profiles@[i].name@, 0, i);
}

proof fn lemma_profile_at(v: Seq<config::Profile>, name: Seq<char>, from: int, i: int)
    requires
        0 <= from <= i < v.len(),
        v[i].name@ == name,
        forall|j: int| 0 <= j < i ==> (#[trigger] v[j]).name@ != name,
    ensures
        config::profile_from(v, name, from) == Some(i),
    decreases i - from,
{
    if from < i {
        assert(v[from].name@ != name);
        lemma_profile_at(v, name, from + 1, i);
    }
}

/// The directory of a pane is the one that was found for it, not another's.
pub proof fn law_directory_of_pane(dirs: Seq<(PaneId, String)>, id: PaneId, i: int)
    requires
        0 <= i < dirs.len(),
        dirs[i].0 == id,
        forall|j: int| 0 <= j < i ==> (#[trigger] dirs[j]).0 != id,
    ensures
        dir_from(dirs, id, 0) == Some(dirs[i].1),
{
    lemma_dir_at(dirs, id, 0, i);
}

proof fn lemma_dir_at(dirs: Seq<(PaneId, String)>, id: PaneId, from: int, i: int)
    requires
        0 <= from <= i < dirs.len(),
        dirs[i].0 == id,
        forall|j: int| 0 <= j < i ==> (#[trigger] dirs[j]).0 != id,
    ensures
        dir_from(dirs, id, from) == Some(dirs[i].1),
    decreases i - from,
{
    if from < i {
        assert(dirs[from].0 != id);
        lemma_dir_at(dirs, id, from + 1, i);
    }
}

} // verus!
