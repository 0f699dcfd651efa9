//! Session save and restore: window geometry, tabs, split trees, profiles,
//! directories and browser URLs survive a restart.
use vstd::prelude::*;
use vstd::slice::*;
use crate::pane_tree;
use crate::pane_tree::{Dir, Node, PaneId, Tree, ONE};
use crate::text;

verus! {

pub struct Session {
    pub windows: Vec<WindowState>,
}

pub struct WindowState {
    pub x: i32,
    pub y: i32,
    pub w: i32,
    pub h: i32,
    pub active: usize,
    pub tabs: Vec<TabState>,
}

pub struct TabState {
    /// Font size in thousandths of a point.
    pub font_size: i32,
    /// Index of the focused pane in leaf order.
    pub active_leaf: usize,
    pub tree: NodeState,
}

pub enum NodeState {
    Leaf(LeafState),
    Split { row: bool, fracs: Vec<u64>, kids: Vec<NodeState> },
}

pub struct LeafState {
    pub kind: PaneType,
    pub profile: Option<String>,
    pub cwd: Option<String>,
    pub url: Option<String>,
}

#[derive(PartialEq, Eq, Clone, Copy, Debug, Structural)]
pub enum PaneType {
    Term,
    Browser,
}

/// The saved tree that a `NodeState` stands for.
pub enum Saved {
    Leaf(LeafState),
    Split { row: bool, fracs: Seq<u64>, kids: Seq<Saved> },
}

pub open spec fn saved_of(s: NodeState) -> Saved
    decreases s,
{
    match s {
        NodeState::Leaf(l) => Saved::Leaf(l),
        NodeState::Split { row, fracs, kids } => Saved::Split {
            row,
            fracs: fracs@,
            kids: Seq::new(
                kids@.len(),
                |i: int|
                    if 0 <= i < kids@.len() {
                        saved_of(kids@[i])
                    } else {
                        Saved::Split { row: false, fracs: Seq::empty(), kids: Seq::empty() }
                    },
            ),
        },
    }
}

impl View for NodeState {
    type V = Saved;

    open spec fn view(&self) -> Saved {
        saved_of(*self)
    }
}

/// What the model of a saved split holds.
pub proof fn lemma_saved_view(s: NodeState)
    ensures
        match s {
            NodeState::Leaf(l) => s@ == Saved::Leaf(l),
            NodeState::Split { row, fracs, kids } => {
                &&& s@ is Split
                &&& s@->row == row
                &&& s@->fracs == fracs@
                &&& s@->kids.len() == kids@.len()
                &&& forall|i: int| 0 <= i < kids@.len() ==> #[trigger] s@->kids[i] == kids@[i]@
            },
        },
{
}

/// The file that the session is kept in: beside the settings.
pub open spec fn session_path(settings: Seq<char>) -> Seq<char> {
    settings.take(settings.len() - text::base_name(settings).len()) + "session.json"@
}

/// The file that the session is kept in, given the file of the settings.
pub fn path(settings: &str) -> (r: String)
    ensures
        r@ == session_path(settings@),
{
    let all = text::chars_of(settings);
    let n: usize = all.len();
    let base: usize = text::base_of(all.as_slice()).len();
    proof {
        lemma_base_len(settings@);
    }
    let dir = slice_subrange(all.as_slice(), 0, n - base);
    assert(dir@ =~= settings@.take(n - base));
    let mut r = text::string_of(dir);
    text::push_text(&mut r, "session.json");
    r
}

proof fn lemma_base_len(s: Seq<char>)
    ensures
        text::base_name(s).len() <= s.len(),
    decreases s.len(),
{
    if s.len() > 0 && s.last() != '\\' && s.last() != '/' {
        lemma_base_len(s.drop_last());
    }
}

/// Whether a session has something in it: some window has a tab.
pub fn worth_saving(session: &Session) -> (r: bool)
    ensures
        r == exists|i: int|
            0 <= i < session.windows@.len() && (#[trigger] session.windows@[i]).tabs@.len() > 0,
{
    let mut i: usize = 0;
    while i < session.windows.len()
        invariant
            i <= session.windows@.len(),
            forall|j: int| 0 <= j < i ==> (#[trigger] session.windows@[j]).tabs@.len() == 0,
        decreases session.windows@.len() - i,
    {
        if session.windows[i].tabs.len() > 0 {
            return true;
        }
        i += 1;
    }
    false
}

/// Whether `s` is what is saved of the tree `t`, where `f` describes panes:
/// the same shape and shares, each pane described.
pub open spec fn is_snapshot<F: Fn(PaneId) -> LeafState>(t: Tree, s: Saved, f: F) -> bool
    decreases t,
{
    match t {
        Tree::Leaf(id) => s matches Saved::Leaf(l) && call_ensures(f, (id,), l),
        Tree::Split { dir, fracs, kids } => {
            &&& s is Split
            &&& s->row == (dir == Dir::Row)
            &&& s->fracs == fracs
            &&& s->kids.len() == kids.len()
            &&& forall|i: int|
                0 <= i < kids.len() ==> is_snapshot(#[trigger] kids[i], s->kids[i], f)
        },
    }
}

/// Save a live pane tree: `leaf_state` tells what is needed to start a pane
/// again.
pub fn snapshot_node<F: Fn(PaneId) -> LeafState>(node: &Node, leaf_state: &F) -> (r: NodeState)
    requires
        forall|id: PaneId| call_requires(*leaf_state, (id,)),
    ensures
        is_snapshot(node@, r@, *leaf_state),
    decreases node,
{
    proof {
        pane_tree::lemma_node_view(*node);
    }
    match node {
        Node::Leaf(id) => {
            let r = NodeState::Leaf(leaf_state(*id));
            proof {
                lemma_saved_view(r);
            }
            r
        },
        Node::Split { dir, fracs, kids } => {
            let ghost trees = node@->kids;
            let mut out: Vec<NodeState> = Vec::new();
            let mut i: usize = 0;
            while i < kids.len()
                invariant
                    i <= kids@.len(),
                    decreases_to!(node => kids@),
                    pane_tree::same_trees(trees, kids@),
                    forall|id: PaneId| call_requires(*leaf_state, (id,)),
                    out@.len() == i,
                    forall|j: int|
                        0 <= j < i ==> is_snapshot(trees[j], (#[trigger] out@[j])@, *leaf_state),
                decreases kids@.len() - i,
            {
                let kid = snapshot_node(&kids[i], leaf_state);
                out.push(kid);
                i += 1;
            }
            let mut shares: Vec<u64> = Vec::new();
            let mut k: usize = 0;
            while k < fracs.len()
                invariant
                    k <= fracs@.len(),
                    shares@ == fracs@.take(k as int),
                decreases fracs@.len() - k,
            {
                shares.push(fracs[k]);
                assert(fracs@.take(k + 1) =~= fracs@.take(k as int).push(fracs@[k as int]));
                k += 1;
            }
            assert(fracs@.take(k as int) =~= fracs@);
            let r = NodeState::Split { row: *dir == Dir::Row, fracs: shares, kids: out };
            proof {
                lemma_saved_view(r);
                assert forall|j: int| 0 <= j < trees.len() implies is_snapshot(
                    #[trigger] trees[j],
                    r@->kids[j],
                    *leaf_state,
                ) by {
                    assert(r@->kids[j] == out@[j]@);
                }
            }
            r
        },
    }
}

/// Children of a saved split that have a share.
pub open spec fn kid_count(s: Saved) -> int {
    match s {
        Saved::Leaf(_) => 0,
        Saved::Split { fracs, kids, .. } => if kids.len() < fracs.len() {
            kids.len() as int
        } else {
            fracs.len() as int
        },
    }
}

/// Number of panes to start for a saved tree.
pub open spec fn leaf_count(s: Saved) -> nat
    decreases s, kid_count(s) + 1,
{
    match s {
        Saved::Leaf(_) => 1,
        Saved::Split { .. } => count_upto(s, kid_count(s)),
    }
}

/// Number of panes to start for the first `n` children of a saved split.
pub open spec fn count_upto(s: Saved, n: int) -> nat
    decreases s, n,
{
    match s {
        Saved::Leaf(_) => 0,
        Saved::Split { kids, .. } => if 0 < n <= kids.len() {
            count_upto(s, n - 1) + leaf_count(kids[n - 1])
        } else {
            0
        },
    }
}

/// The panes to start, in order.
pub open spec fn saved_leaves(s: Saved) -> Seq<LeafState>
    decreases s, kid_count(s) + 1,
{
    match s {
        Saved::Leaf(l) => seq![l],
        Saved::Split { .. } => saved_upto(s, kid_count(s)),
    }
}

pub open spec fn saved_upto(s: Saved, n: int) -> Seq<LeafState>
    decreases s, n,
{
    match s {
        Saved::Leaf(_) => Seq::empty(),
        Saved::Split { kids, .. } => if 0 < n <= kids.len() {
            saved_upto(s, n - 1) + saved_leaves(kids[n - 1])
        } else {
            Seq::empty()
        },
    }
}

/// Shares scaled so that they make up the whole; the cuts between them are
/// rounded down. Shares that are all nothing stay.
pub open spec fn normalized(fracs: Seq<u64>) -> Seq<u64> {
    if pane_tree::total_share(fracs) == 0 {
        fracs
    } else {
        Seq::new(fracs.len(), |i: int| (share_cut(fracs, i + 1) - share_cut(fracs, i)) as u64)
    }
}

/// Where the share with index `i` starts once they make up the whole.
pub open spec fn share_cut(fracs: Seq<u64>, i: int) -> int {
    pane_tree::total_share(fracs.take(i)) as int * ONE as int / pane_tree::total_share(
        fracs,
    ) as int
}

/// A split of what is left of its children: nothing, the one child, or a
/// split whose shares make up the whole.
pub open spec fn regrouped(row: bool, fracs: Seq<u64>, kids: Seq<Tree>) -> Option<Tree> {
    if kids.len() == 0 {
        None
    } else if kids.len() == 1 {
        Some(kids[0])
    } else {
        Some(
            Tree::Split {
                dir: if row {
                    Dir::Row
                } else {
                    Dir::Col
                },
                fracs: normalized(fracs),
                kids,
            },
        )
    }
}

/// The tree of a saved tree, where `ids` tells for each pane, in order, the id
/// it got when it was started, or that it could not be started.
pub open spec fn rebuilt(s: Saved, ids: Seq<Option<PaneId>>) -> Option<Tree>
    decreases s, kid_count(s) + 1,
{
    match s {
        Saved::Leaf(_) => match ids[0] {
            Some(id) => Some(Tree::Leaf(id)),
            None => None,
        },
        Saved::Split { row, .. } => {
            let kept = kept_upto(s, ids, kid_count(s));
            regrouped(row, kept.0, kept.1)
        },
    }
}

/// The shares and trees of those of the first `n` children that are alive.
pub open spec fn kept_upto(s: Saved, ids: Seq<Option<PaneId>>, n: int) -> (Seq<u64>, Seq<Tree>)
    decreases s, n,
{
    match s {
        Saved::Leaf(_) => (Seq::empty(), Seq::empty()),
        Saved::Split { fracs, kids, .. } => if 0 < n <= kids.len() {
            let before = kept_upto(s, ids, n - 1);
            let mine = ids.subrange(count_upto(s, n - 1) as int, count_upto(s, n) as int);
            match rebuilt(kids[n - 1], mine) {
                Some(t) => (before.0.push(fracs[n - 1]), before.1.push(t)),
                None => before,
            }
        } else {
            (Seq::empty(), Seq::empty())
        },
    }
}

/// Largest share that a saved tree can hold.
pub const MAX_SAVED_SHARE: u64 = 0x1_0000_0000;

/// Whether the shares of a saved tree are in range.
pub open spec fn shares_ok(s: Saved) -> bool
    decreases s,
{
    match s {
        Saved::Leaf(_) => true,
        Saved::Split { fracs, kids, .. } => {
            &&& forall|i: int| 0 <= i < fracs.len() ==> #[trigger] fracs[i] <= MAX_SAVED_SHARE
            &&& forall|i: int| 0 <= i < kids.len() ==> shares_ok(#[trigger] kids[i])
        },
    }
}

proof fn lemma_total_bound(fracs: Seq<u64>, i: int)
    requires
        0 <= i <= fracs.len(),
        forall|j: int| 0 <= j < fracs.len() ==> #[trigger] fracs[j] <= MAX_SAVED_SHARE,
    ensures
        pane_tree::total_share(fracs.take(i)) <= i * MAX_SAVED_SHARE,
        i < fracs.len() ==> pane_tree::total_share(fracs.take(i + 1)) == pane_tree::total_share(
            fracs.take(i),
        ) + fracs[i],
        pane_tree::total_share(fracs.take(i)) <= pane_tree::total_share(fracs),
    decreases i,
{
    if i > 0 {
        lemma_total_bound(fracs, i - 1);
        assert(fracs.take(i).drop_last() =~= fracs.take(i - 1));
        pane_tree::lemma_total_share_take(fracs, i - 1);
    } else {
        assert(fracs.take(0) =~= Seq::empty());
    }
    if i < fracs.len() {
        assert(fracs.take(i + 1).drop_last() =~= fracs.take(i));
    }
}

/// Scaled shares make up the whole.
pub proof fn lemma_normalized(fracs: Seq<u64>)
    requires
        pane_tree::total_share(fracs) > 0,
    ensures
        normalized(fracs).len() == fracs.len(),
        pane_tree::total_share(normalized(fracs)) == ONE,
        forall|i: int|
            #![trigger share_cut(fracs, i)]
            0 <= i < fracs.len() ==> 0 <= share_cut(fracs, i) <= share_cut(fracs, i + 1) <= ONE,
{
    let all = pane_tree::total_share(fracs) as int;
    assert forall|i: int| #![trigger share_cut(fracs, i)] 0 <= i < fracs.len() implies 0
        <= share_cut(fracs, i) <= share_cut(fracs, i + 1) <= ONE by {
        pane_tree::lemma_total_share_take(fracs, i);
        let p = pane_tree::total_share(fracs.take(i)) as int;
        let q = pane_tree::total_share(fracs.take(i + 1)) as int;
        assert(0 <= p * ONE as int / all <= q * ONE as int / all <= ONE as int)
            by (nonlinear_arith)
            requires
                0 <= p <= q <= all,
                0 < all,
        ;
    }
    lemma_normalized_sum(fracs, fracs.len() as int);
    assert(normalized(fracs).take(fracs.len() as int) =~= normalized(fracs));
    assert(fracs.take(fracs.len() as int) =~= fracs);
    assert(all * ONE as int / all == ONE as int) by (nonlinear_arith)
        requires
            0 < all,
    ;
}

proof fn lemma_normalized_sum(fracs: Seq<u64>, i: int)
    requires
        pane_tree::total_share(fracs) > 0,
        0 <= i <= fracs.len(),
        forall|i: int|
            #![trigger share_cut(fracs, i)]
            0 <= i < fracs.len() ==> 0 <= share_cut(fracs, i) <= share_cut(fracs, i + 1) <= ONE,
    ensures
        pane_tree::total_share(normalized(fracs).take(i)) == share_cut(fracs, i),
    decreases i,
{
    let out = normalized(fracs);
    let all = pane_tree::total_share(fracs) as int;
    if i == 0 {
        assert(fracs.take(0) =~= Seq::empty());
        assert(out.take(0) =~= Seq::empty());
        assert(0 * ONE as int / all == 0) by (nonlinear_arith)
            requires
                0 < all,
        ;
    } else {
        lemma_normalized_sum(fracs, i - 1);
        pane_tree::lemma_total_share_take(out, i - 1);
        assert(0 <= share_cut(fracs, i - 1));
    }
}

/// Scale shares so that they make up the whole.
fn normalize(fracs: &mut Vec<u64>)
    requires
        forall|j: int| 0 <= j < old(fracs)@.len() ==> #[trigger] old(fracs)@[j] <= MAX_SAVED_SHARE,
    ensures
        final(fracs)@ == normalized(old(fracs)@),
{
    let ghost f0 = fracs@;
    let n: usize = fracs.len();
    let mut all: u128 = 0;
    let mut i: usize = 0;
    assert(f0.take(0) =~= Seq::empty());
    while i < n
        invariant
            i <= n == fracs@.len(),
            fracs@ == f0,
            forall|j: int| 0 <= j < f0.len() ==> #[trigger] f0[j] <= MAX_SAVED_SHARE,
            all == pane_tree::total_share(f0.take(i as int)),
        decreases n - i,
    {
        proof {
            lemma_total_bound(f0, i as int);
            assert(i * MAX_SAVED_SHARE <= 0x1_0000_0000_0000_0000_0000_0000) by (nonlinear_arith)
                requires
                    0 <= i <= 0xffff_ffff_ffff_ffff,
                    MAX_SAVED_SHARE == 0x1_0000_0000,
            ;
        }
        all = all + fracs[i] as u128;
        i += 1;
    }
    assert(f0.take(n as int) =~= f0);
    if all == 0 {
        return;
    }
    proof {
        lemma_normalized(f0);
        lemma_total_bound(f0, n as int);
        assert(n * MAX_SAVED_SHARE <= 0x1_0000_0000_0000_0000_0000_0000) by (nonlinear_arith)
            requires
                0 <= n <= 0xffff_ffff_ffff_ffff,
                MAX_SAVED_SHARE == 0x1_0000_0000,
        ;
        assert(f0.take(0) =~= Seq::empty());
        assert(0 * ONE as int / all as int == 0) by (nonlinear_arith)
            requires
                0 < all,
        ;
    }
    let mut before: u128 = 0;
    let mut start: u64 = 0;
    let mut k: usize = 0;
    while k < n
        invariant
            k <= n == fracs@.len(),
            n == f0.len(),
            0 < all == pane_tree::total_share(f0),
            all <= 0x1_0000_0000_0000_0000_0000_0000,
            before == pane_tree::total_share(f0.take(k as int)),
            start == share_cut(f0, k as int),
            normalized(f0).len() == f0.len(),
            forall|j: int|
                #![trigger share_cut(f0, j)]
                0 <= j < f0.len() ==> 0 <= share_cut(f0, j) <= share_cut(f0, j + 1) <= ONE,
            forall|j: int| 0 <= j < k ==> #[trigger] fracs@[j] == normalized(f0)[j],
            forall|j: int| k <= j < f0.len() ==> #[trigger] fracs@[j] == f0[j],
        decreases n - k,
    {
        proof {
            pane_tree::lemma_total_share_take(f0, k as int);
            assert(0 <= share_cut(f0, k as int));
        }
        let upto: u128 = before + fracs[k] as u128;
        assert(upto * 0x4000_0000 <= 0x4000_0000_0000_0000_0000_0000_0000_0000) by (nonlinear_arith)
            requires
                upto <= 0x1_0000_0000_0000_0000_0000_0000,
        ;
        let end: u64 = (upto * ONE as u128 / all) as u64;
        fracs.set(k, end - start);
        before = upto;
        start = end;
        k += 1;
    }
    assert(fracs@ =~= normalized(f0));
}

proof fn lemma_count_step(s: Saved, i: int)
    requires
        s is Split,
        0 <= i < kid_count(s),
    ensures
        count_upto(s, i + 1) == count_upto(s, i) + leaf_count(s->kids[i]),
        count_upto(s, i + 1) <= leaf_count(s),
    decreases kid_count(s) - i,
{
    if i + 1 < kid_count(s) {
        lemma_count_step(s, i + 1);
    }
}

/// Rebuild the part of a tree whose panes start at `at` in `ids`.
fn rebuild_from(state: &NodeState, ids: &[Option<PaneId>], at: usize) -> (r: (
    Option<Node>,
    usize,
))
    requires
        shares_ok(state@),
        at + leaf_count(state@) <= ids@.len(),
    ensures
        r.1 == at + leaf_count(state@),
        ({
            let want = rebuilt(state@, ids@.subrange(at as int, r.1 as int));
            match r.0 {
                Some(n) => want == Some(n@),
                None => want is None,
            }
        }),
    decreases state,
{
    proof {
        lemma_saved_view(*state);
    }
    let ghost s = state@;
    match state {
        NodeState::Leaf(_) => {
            let ghost mine = ids@.subrange(at as int, at + 1);
            assert(mine[0] == ids@[at as int]);
            match ids[at] {
                Some(id) => {
                    let n = Node::Leaf(id);
                    proof {
                        pane_tree::lemma_node_view(n);
                    }
                    (Some(n), at + 1)
                },
                None => (None, at + 1),
            }
        },
        NodeState::Split { row, fracs, kids } => {
            let m: usize = if kids.len() < fracs.len() {
                kids.len()
            } else {
                fracs.len()
            };
            let ghost end = at + leaf_count(s);
            let ghost mine = ids@.subrange(at as int, end);
            let mut new_kids: Vec<Node> = Vec::new();
            let mut new_fracs: Vec<u64> = Vec::new();
            let mut next: usize = at;
            let mut i: usize = 0;
            while i < m
                invariant
                    i <= m == kid_count(s),
                    m <= kids@.len(),
                    m <= fracs@.len(),
                    decreases_to!(state => kids@),
                    s == (Saved::Split { row: *row, fracs: fracs@, kids: s->kids }),
                    s->kids.len() == kids@.len(),
                    forall|j: int| 0 <= j < kids@.len() ==> #[trigger] s->kids[j] == kids@[j]@,
                    shares_ok(s),
                    end == at + leaf_count(s) <= ids@.len(),
                    mine == ids@.subrange(at as int, end),
                    next == at + count_upto(s, i as int),
                    new_kids@.len() == new_fracs@.len(),
                    new_fracs@ == kept_upto(s, mine, i as int).0,
                    pane_tree::same_trees(kept_upto(s, mine, i as int).1, new_kids@),
                    forall|j: int|
                        0 <= j < new_fracs@.len() ==> #[trigger] new_fracs@[j] <= MAX_SAVED_SHARE,
                decreases m - i,
            {
                proof {
                    lemma_count_step(s, i as int);
                    assert(shares_ok(s->kids[i as int]));
                }
                let (kid, after) = rebuild_from(&kids[i], ids, next);
                proof {
                    assert(ids@.subrange(next as int, after as int) =~= mine.subrange(
                        count_upto(s, i as int) as int,
                        count_upto(s, i + 1) as int,
                    ));
                }
                let ghost kept = kept_upto(s, mine, i as int);
                if let Some(n) = kid {
                    new_kids.push(n);
                    new_fracs.push(fracs[i]);
                }
                next = after;
                i += 1;
            }
            let ghost kept = kept_upto(s, mine, m as int);
            let count: usize = new_kids.len();
            if count == 0 {
                return (None, next);
            }
            if count == 1 {
                let only = new_kids.pop();
                assert(kept.1[0] == only->0@);
                return (only, next);
            }
            normalize(&mut new_fracs);
            let dir = if *row {
                Dir::Row
            } else {
                Dir::Col
            };
            let n = Node::Split { dir, fracs: new_fracs, kids: new_kids };
            proof {
                pane_tree::lemma_node_view(n);
                assert(n@->kids =~= kept.1);
            }
            (Some(n), next)
        },
    }
}

/// Rebuild a pane tree. `ids` tells for each saved pane, in order, the id of
/// the pane that was started for it. Panes that could not be started are
/// dropped; None where none is left.
pub fn rebuild_node(state: &NodeState, ids: &[Option<PaneId>]) -> (r: Option<Node>)
    requires
        shares_ok(state@),
        ids@.len() == leaf_count(state@),
    ensures
        match r {
            Some(n) => rebuilt(state@, ids@) == Some(n@) && pane_tree::wf(n@),
            None => rebuilt(state@, ids@) is None,
        },
{
    let (r, _) = rebuild_from(state, ids, 0);
    proof {
        assert(ids@.subrange(0, ids@.len() as int) =~= ids@);
        law_rebuilt_wf(state@, ids@);
    }
    r
}

/// A rebuilt tree is well formed, whatever the saved shares were, and its
/// panes are those that could be started, in order.
pub proof fn law_rebuilt_wf(s: Saved, ids: Seq<Option<PaneId>>)
    requires
        ids.len() == leaf_count(s),
    ensures
        rebuilt(s, ids) matches Some(t) ==> pane_tree::wf(t),
        rebuilt(s, ids) matches Some(t) ==> pane_tree::leaves(t) == started(ids),
        rebuilt(s, ids) is None ==> started(ids) == Seq::<PaneId>::empty(),
    decreases s,
{
    match s {
        Saved::Leaf(_) => {
            assert(ids =~= seq![ids[0]]);
            assert(ids.drop_last() =~= Seq::empty());
            reveal_with_fuel(started, 2);
            match ids[0] {
                Some(id) => {
                    assert(started(ids) =~= seq![id]);
                },
                None => {
                    assert(started(ids) =~= Seq::<PaneId>::empty());
                },
            }
        },
        Saved::Split { fracs, kids, .. } => {
            let m = kid_count(s);
            assert forall|i: int, mine: Seq<Option<PaneId>>|
                0 <= i < m && mine.len() == leaf_count(kids[i]) implies {
                &&& #[trigger] rebuilt(kids[i], mine) matches Some(t) ==> pane_tree::wf(t)
                &&& rebuilt(kids[i], mine) matches Some(t) ==> pane_tree::leaves(t) == started(
                    mine,
                )
                &&& rebuilt(kids[i], mine) is None ==> started(mine) == Seq::<PaneId>::empty()
            } by {
                law_rebuilt_wf(kids[i], mine);
            }
            lemma_kept(s, ids, m);
            let kept = kept_upto(s, ids, m);
            assert(ids.take(count_upto(s, m) as int) =~= ids);
            if kept.1.len() == 1 {
                assert(kept.1 =~= seq![kept.1[0]]);
                pane_tree::lemma_leaves_of_one(kept.1[0]);
            } else if kept.1.len() > 1 {
                if pane_tree::total_share(kept.0) > 0 {
                    lemma_normalized(kept.0);
                }
            }
        },
    }
}

/// The ids of the panes that could be started.
pub open spec fn started(ids: Seq<Option<PaneId>>) -> Seq<PaneId>
    decreases ids.len(),
{
    if ids.len() == 0 {
        Seq::empty()
    } else {
        match ids.last() {
            Some(id) => started(ids.drop_last()).push(id),
            None => started(ids.drop_last()),
        }
    }
}

proof fn lemma_started_concat(a: Seq<Option<PaneId>>, b: Seq<Option<PaneId>>)
    ensures
        started(a + b) == started(a) + started(b),
    decreases b.len(),
{
    if b.len() == 0 {
        assert(a + b =~= a);
    } else {
        assert((a + b).drop_last() =~= a + b.drop_last());
        lemma_started_concat(a, b.drop_last());
        assert(started(a + b) =~= started(a) + started(b));
    }
}

proof fn lemma_kept(s: Saved, ids: Seq<Option<PaneId>>, n: int)
    requires
        s is Split,
        0 <= n <= kid_count(s),
        ids.len() == leaf_count(s),
        forall|i: int, mine: Seq<Option<PaneId>>|
            0 <= i < kid_count(s) && mine.len() == leaf_count(s->kids[i]) ==> {
                &&& #[trigger] rebuilt(s->kids[i], mine) matches Some(t) ==> pane_tree::wf(t)
                &&& rebuilt(s->kids[i], mine) matches Some(t) ==> pane_tree::leaves(t) == started(
                    mine,
                )
                &&& rebuilt(s->kids[i], mine) is None ==> started(mine) == Seq::<PaneId>::empty()
            },
    ensures
        kept_upto(s, ids, n).0.len() == kept_upto(s, ids, n).1.len(),
        forall|i: int|
            0 <= i < kept_upto(s, ids, n).1.len() ==> pane_tree::wf(
                #[trigger] kept_upto(s, ids, n).1[i],
            ),
        count_upto(s, n) <= ids.len(),
        pane_tree::leaves_of(kept_upto(s, ids, n).1) == started(
            ids.take(count_upto(s, n) as int),
        ),
    decreases n,
{
    if n == 0 {
        assert(ids.take(0) =~= Seq::empty());
        assert(started(ids.take(0)) =~= pane_tree::leaves_of(kept_upto(s, ids, 0).1));
    } else {
        lemma_kept(s, ids, n - 1);
        lemma_count_step(s, n - 1);
        let before = kept_upto(s, ids, n - 1);
        let a = count_upto(s, n - 1) as int;
        let b = count_upto(s, n) as int;
        let mine = ids.subrange(a, b);
        assert(ids.take(b) =~= ids.take(a) + mine);
        lemma_started_concat(ids.take(a), mine);
        match rebuilt(s->kids[n - 1], mine) {
            Some(t) => {
                let now = before.1.push(t);
                assert(now.drop_last() =~= before.1);
                assert(now.last() == t);
                assert forall|i: int| 0 <= i < now.len() implies pane_tree::wf(
                    #[trigger] now[i],
                ) by {
                    if i < before.1.len() {
                        assert(now[i] == before.1[i]);
                    }
                }
            },
            None => {
                assert(started(ids.take(a)) + Seq::<PaneId>::empty() =~= started(ids.take(a)));
            },
        }
    }
}

/// The panes to start for a saved tree, in order.
pub fn saved_panes<'a>(state: &'a NodeState) -> (r: Vec<&'a LeafState>)
    ensures
        r@.len() == leaf_count(state@),
        r@.len() == saved_leaves(state@).len(),
        forall|i: int| 0 <= i < r@.len() ==> *(#[trigger] r@[i]) == saved_leaves(state@)[i],
{
    let mut r: Vec<&'a LeafState> = Vec::new();
    push_panes(state, &mut r);
    r
}

fn push_panes<'a>(state: &'a NodeState, r: &mut Vec<&'a LeafState>)
    ensures
        final(r)@.len() == old(r)@.len() + leaf_count(state@),
        saved_leaves(state@).len() == leaf_count(state@),
        forall|i: int| 0 <= i < old(r)@.len() ==> #[trigger] final(r)@[i] == old(r)@[i],
        forall|i: int|
            0 <= i < leaf_count(state@) ==> *final(r)@[old(r)@.len() + i] == #[trigger] saved_leaves(
                state@,
            )[i],
    decreases state,
{
    proof {
        lemma_saved_view(*state);
    }
    let ghost s = state@;
    match state {
        NodeState::Leaf(l) => {
            r.push(l);
        },
        NodeState::Split { row, fracs, kids } => {
            let m: usize = if kids.len() < fracs.len() {
                kids.len()
            } else {
                fracs.len()
            };
            let ghost r0 = r@;
            let mut i: usize = 0;
            while i < m
                invariant
                    i <= m == kid_count(s),
                    m <= kids@.len(),
                    decreases_to!(state => kids@),
                    s == (Saved::Split { row: *row, fracs: fracs@, kids: s->kids }),
                    s->kids.len() == kids@.len(),
                    forall|j: int| 0 <= j < kids@.len() ==> #[trigger] s->kids[j] == kids@[j]@,
                    r@.len() == r0.len() + count_upto(s, i as int),
                    saved_upto(s, i as int).len() == count_upto(s, i as int),
                    forall|j: int| 0 <= j < r0.len() ==> #[trigger] r@[j] == r0[j],
                    forall|j: int|
                        0 <= j < saved_upto(s, i as int).len() ==> *r@[r0.len() + j]
                            == #[trigger] saved_upto(s, i as int)[j],
                decreases m - i,
            {
                let ghost before = r@;
                let ghost had = saved_upto(s, i as int);
                push_panes(&kids[i], r);
                proof {
                    let more = saved_leaves(s->kids[i as int]);
                    let now = saved_upto(s, i + 1);
                    assert(now == had + more);
                    assert forall|j: int| 0 <= j < now.len() implies *r@[r0.len() + j]
                        == #[trigger] now[j] by {
                        if j < had.len() {
                            assert(r@[r0.len() + j] == before[r0.len() + j]);
                            assert(now[j] == had[j]);
                        } else {
                            assert(now[j] == more[j - had.len()]);
                            assert(*r@[before.len() + (j - had.len())] == more[j - had.len()]);
                        }
                    }
                }
                i += 1;
            }
        },
    }
}

/// Panes that could all be started, under these ids.
pub open spec fn all_started(l: Seq<PaneId>) -> Seq<Option<PaneId>> {
    l.map_values(|id: PaneId| Some(id))
}

/// Whether a saved tree has the shape and the shares of a tree.
pub open spec fn same_shape(t: Tree, s: Saved) -> bool
    decreases t,
{
    match t {
        Tree::Leaf(_) => s is Leaf,
        Tree::Split { dir, fracs, kids } => {
            &&& s is Split
            &&& s->row == (dir == Dir::Row)
            &&& s->fracs == fracs
            &&& s->kids.len() == kids.len()
            &&& forall|i: int| 0 <= i < kids.len() ==> same_shape(#[trigger] kids[i], s->kids[i])
        },
    }
}

/// What is saved of a tree has its shape.
pub proof fn lemma_snapshot_shape<F: Fn(PaneId) -> LeafState>(t: Tree, s: Saved, f: F)
    requires
        is_snapshot(t, s, f),
    ensures
        same_shape(t, s),
    decreases t,
{
    if let Tree::Split { kids, .. } = t {
        assert forall|i: int| 0 <= i < kids.len() implies same_shape(
            #[trigger] kids[i],
            s->kids[i],
        ) by {
            lemma_snapshot_shape(kids[i], s->kids[i], f);
        }
    }
}

/// What is saved of a tree describes its panes in order.
pub proof fn lemma_snapshot_describes<F: Fn(PaneId) -> LeafState>(t: Tree, s: Saved, f: F)
    requires
        pane_tree::wf(t),
        is_snapshot(t, s, f),
    ensures
        saved_leaves(s).len() == pane_tree::leaves(t).len(),
        forall|i: int|
            0 <= i < saved_leaves(s).len() ==> call_ensures(
                f,
                (pane_tree::leaves(t)[i],),
                #[trigger] saved_leaves(s)[i],
            ),
    decreases t,
{
    if let Tree::Split { kids, .. } = t {
        assert forall|i: int| 0 <= i < kids.len() implies describes(
            saved_leaves(#[trigger] s->kids[i]),
            pane_tree::leaves(kids[i]),
            f,
        ) by {
            assert(is_snapshot(kids[i], s->kids[i], f));
            lemma_snapshot_describes(kids[i], s->kids[i], f);
        }
        lemma_saved_upto(s, kids, f, kids.len() as int);
        assert(kids.take(kids.len() as int) =~= kids);
        assert(describes(saved_leaves(s), pane_tree::leaves(t), f));
    }
}

/// Whether each of `l` is what `f` says of the pane at its place.
spec fn describes<F: Fn(PaneId) -> LeafState>(l: Seq<LeafState>, panes: Seq<PaneId>, f: F) -> bool {
    &&& l.len() == panes.len()
    &&& forall|i: int| 0 <= i < l.len() ==> call_ensures(f, (panes[i],), #[trigger] l[i])
}

proof fn lemma_saved_upto<F: Fn(PaneId) -> LeafState>(s: Saved, kids: Seq<Tree>, f: F, n: int)
    requires
        s is Split,
        s->kids.len() == kids.len(),
        0 <= n <= kids.len(),
        forall|i: int|
            0 <= i < kids.len() ==> describes(
                saved_leaves(#[trigger] s->kids[i]),
                pane_tree::leaves(kids[i]),
                f,
            ),
    ensures
        describes(saved_upto(s, n), pane_tree::leaves_of(kids.take(n)), f),
    decreases n,
{
    if n > 0 {
        lemma_saved_upto(s, kids, f, n - 1);
        let part = kids.take(n);
        assert(part.drop_last() =~= kids.take(n - 1));
        assert(part.last() == kids[n - 1]);
        let before = saved_upto(s, n - 1);
        let mine = saved_leaves(s->kids[n - 1]);
        assert(describes(mine, pane_tree::leaves(kids[n - 1]), f));
        assert forall|i: int| 0 <= i < saved_upto(s, n).len() implies call_ensures(
            f,
            (pane_tree::leaves_of(part)[i],),
            #[trigger] saved_upto(s, n)[i],
        ) by {
            if i < before.len() {
                assert(saved_upto(s, n)[i] == before[i]);
            } else {
                assert(saved_upto(s, n)[i] == mine[i - before.len()]);
            }
        }
    }
}

/// Restoring a saved tree that has the shape of a tree, with every pane
/// started, gives its shape and its shares again, and the panes under the ids
/// that they got, in order.
pub proof fn law_shape_roundtrip(t: Tree, s: Saved, ids: Seq<PaneId>)
    requires
        pane_tree::wf(t),
        pane_tree::full(t),
        same_shape(t, s),
        ids.len() == leaf_count(s),
    ensures
        shares_ok(s),
        leaf_count(s) == pane_tree::leaves(t).len(),
        rebuilt(s, all_started(ids)) matches Some(r) && same_shape(r, s) && pane_tree::leaves(r)
            == ids,
    decreases t,
{
    lemma_shape_count(t, s);
    lemma_full_shares(t, s);
    let given = all_started(ids);
    match t {
        Tree::Leaf(_) => {
            assert(given[0] == Some(ids[0]));
            let r = Tree::Leaf(ids[0]);
            assert(rebuilt(s, given) == Some(r));
            assert(pane_tree::leaves(r) =~= ids);
        },
        Tree::Split { fracs, kids, .. } => {
            assert forall|i: int, mine: Seq<PaneId>|
                0 <= i < kids.len() && mine.len() == leaf_count(s->kids[i]) implies (
            #[trigger] rebuilt(s->kids[i], all_started(mine)) matches Some(r) && same_shape(
                r,
                s->kids[i],
            )) by {
                assert(same_shape(kids[i], s->kids[i]));
                law_shape_roundtrip(kids[i], s->kids[i], mine);
            }
            let n = kids.len() as int;
            lemma_kept_all(s, ids, n);
            let kept = kept_upto(s, given, n);
            assert(kept.0 =~= fracs);
            lemma_normalized_full(fracs);
            law_rebuilt_wf(s, given);
            lemma_started_all(ids);
        },
    }
}

/// Saving a tree and restoring it with every pane started gives a tree of its
/// shape and its shares. The panes stand in the same order under the ids that
/// they got, and each is described as the one that stood in its place.
pub proof fn law_restore_roundtrip<F: Fn(PaneId) -> LeafState>(
    t: Tree,
    s: Saved,
    f: F,
    ids: Seq<PaneId>,
)
    requires
        pane_tree::wf(t),
        pane_tree::full(t),
        is_snapshot(t, s, f),
        ids.len() == leaf_count(s),
    ensures
        shares_ok(s),
        leaf_count(s) == pane_tree::leaves(t).len(),
        rebuilt(s, all_started(ids)) matches Some(r) && same_shape(r, s) && pane_tree::leaves(r)
            == ids,
        saved_leaves(s).len() == ids.len(),
        forall|i: int|
            0 <= i < ids.len() ==> call_ensures(
                f,
                (pane_tree::leaves(t)[i],),
                #[trigger] saved_leaves(s)[i],
            ),
{
    lemma_snapshot_shape(t, s, f);
    lemma_snapshot_describes(t, s, f);
    law_shape_roundtrip(t, s, ids);
}

/// The shares of a tree whose shares make up the whole are in range.
proof fn lemma_full_shares(t: Tree, s: Saved)
    requires
        pane_tree::full(t),
        same_shape(t, s),
    ensures
        shares_ok(s),
    decreases t,
{
    if let Tree::Split { fracs, kids, .. } = t {
        assert forall|i: int| 0 <= i < fracs.len() implies #[trigger] fracs[i]
            <= MAX_SAVED_SHARE by {
            pane_tree::lemma_total_share_take(fracs, i);
        }
        assert forall|i: int| 0 <= i < s->kids.len() implies shares_ok(#[trigger] s->kids[i]) by {
            assert(same_shape(kids[i], s->kids[i]));
            lemma_full_shares(kids[i], s->kids[i]);
        }
    }
}

/// There is a pane to start for each pane of a tree of the same shape.
proof fn lemma_shape_count(t: Tree, s: Saved)
    requires
        pane_tree::wf(t),
        same_shape(t, s),
    ensures
        leaf_count(s) == pane_tree::leaves(t).len(),
    decreases t,
{
    if let Tree::Split { kids, .. } = t {
        assert forall|i: int| 0 <= i < kids.len() implies leaf_count(#[trigger] s->kids[i])
            == pane_tree::leaves(kids[i]).len() by {
            assert(same_shape(kids[i], s->kids[i]));
            lemma_shape_count(kids[i], s->kids[i]);
        }
        lemma_shape_upto(s, kids, kids.len() as int);
        assert(kids.take(kids.len() as int) =~= kids);
    }
}

proof fn lemma_shape_upto(s: Saved, kids: Seq<Tree>, n: int)
    requires
        s is Split,
        s->kids.len() == kids.len(),
        0 <= n <= kids.len(),
        forall|i: int|
            0 <= i < kids.len() ==> leaf_count(#[trigger] s->kids[i]) == pane_tree::leaves(
                kids[i],
            ).len(),
    ensures
        count_upto(s, n) == pane_tree::leaves_of(kids.take(n)).len(),
    decreases n,
{
    if n > 0 {
        lemma_shape_upto(s, kids, n - 1);
        let part = kids.take(n);
        assert(part.drop_last() =~= kids.take(n - 1));
        assert(part.last() == kids[n - 1]);
        assert(leaf_count(s->kids[n - 1]) == pane_tree::leaves(kids[n - 1]).len());
    }
}

proof fn lemma_started_all(ids: Seq<PaneId>)
    ensures
        started(all_started(ids)) == ids,
    decreases ids.len(),
{
    if ids.len() > 0 {
        let given = all_started(ids);
        assert(given.drop_last() =~= all_started(ids.drop_last()));
        assert(given.last() == Some(ids.last()));
        lemma_started_all(ids.drop_last());
        assert(started(given) =~= ids);
    } else {
        assert(started(all_started(ids)) =~= ids);
    }
}

proof fn lemma_kept_all(s: Saved, ids: Seq<PaneId>, n: int)
    requires
        s is Split,
        s->fracs.len() == s->kids.len(),
        ids.len() == leaf_count(s),
        0 <= n <= s->kids.len(),
        forall|i: int, mine: Seq<PaneId>|
            0 <= i < s->kids.len() && mine.len() == leaf_count(s->kids[i]) ==> (
            #[trigger] rebuilt(s->kids[i], all_started(mine)) matches Some(r) && same_shape(
                r,
                s->kids[i],
            )),
    ensures
        count_upto(s, n) <= ids.len(),
        kept_upto(s, all_started(ids), n).0 == s->fracs.take(n),
        kept_upto(s, all_started(ids), n).1.len() == n,
        forall|i: int|
            0 <= i < n ==> same_shape(
                #[trigger] kept_upto(s, all_started(ids), n).1[i],
                s->kids[i],
            ),
    decreases n,
{
    let given = all_started(ids);
    if n == 0 {
        assert(s->fracs.take(0) =~= Seq::empty());
    } else {
        lemma_kept_all(s, ids, n - 1);
        lemma_count_step(s, n - 1);
        let before = kept_upto(s, given, n - 1);
        let a = count_upto(s, n - 1) as int;
        let b = count_upto(s, n) as int;
        let mine = ids.subrange(a, b);
        assert(given.subrange(a, b) =~= all_started(mine));
        assert(mine.len() == leaf_count(s->kids[n - 1]));
        let r = rebuilt(s->kids[n - 1], all_started(mine))->0;
        let now = before.1.push(r);
        assert(kept_upto(s, given, n).1 == now);
        assert(s->fracs.take(n) =~= s->fracs.take(n - 1).push(s->fracs[n - 1]));
        assert forall|i: int| 0 <= i < n implies same_shape(#[trigger] now[i], s->kids[i]) by {
            if i < n - 1 {
                assert(now[i] == before.1[i]);
            }
        }
    }
}

proof fn lemma_normalized_full(fracs: Seq<u64>)
    requires
        pane_tree::total_share(fracs) == ONE,
    ensures
        normalized(fracs) == fracs,
{
    assert forall|i: int| 0 <= i < fracs.len() implies #[trigger] normalized(fracs)[i]
        == fracs[i] by {
        pane_tree::lemma_total_share_take(fracs, i);
        let p = pane_tree::total_share(fracs.take(i)) as int;
        let q = pane_tree::total_share(fracs.take(i + 1)) as int;
        let one = ONE as int;
        assert(p * one / one == p && q * one / one == q) by (nonlinear_arith)
            requires
                0 < one,
        ;
    }
    assert(normalized(fracs) =~= fracs);
}

/// The session is kept beside the settings.
pub proof fn law_session_beside_settings(dir: Seq<char>, sep: char, name: Seq<char>)
    requires
        sep == '/' || sep == '\\',
        forall|i: int| 0 <= i < name.len() ==> #[trigger] name[i] != '/' && name[i] != '\\',
    ensures
        session_path(dir + seq![sep] + name) == dir + seq![sep] + "session.json"@,
{
    text::law_base_name(dir, sep, name);
    let s = dir + seq![sep] + name;
    assert(s.take(s.len() - name.len()) =~= dir + seq![sep]);
}

} // verus!
