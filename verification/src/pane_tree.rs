//! Recursive split tree for panes inside a tab, with arbitrary nesting.
//! Lengths are whole numbers of `1 / DIP` of a device-independent pixel, and
//! shares of a split are whole numbers of `1 / ONE` of its extent.
use vstd::prelude::*;

verus! {

pub type PaneId = u64;

/// Units of length in one device-independent pixel.
pub const DIP: i64 = 1024;

/// The whole of a split's extent, as a share.
pub const ONE: u64 = 0x4000_0000;

/// Width of the divider between two siblings, in units of length.
pub const GAP: i64 = 4096;

/// The smallest share a divider drag leaves to a pane: 0.07 of the split.
pub const MIN_SHARE: u64 = 75_161_928;

#[derive(Clone, Copy, PartialEq, Eq, Debug, Structural)]
pub enum Dir {
    /// Children laid out left to right.
    Row,
    /// Children stacked top to bottom.
    Col,
}

pub enum Node {
    Leaf(PaneId),
    Split { dir: Dir, fracs: Vec<u64>, kids: Vec<Node> },
}

/// The mathematical tree that a `Node` stands for.
pub enum Tree {
    Leaf(PaneId),
    Split { dir: Dir, fracs: Seq<u64>, kids: Seq<Tree> },
}

pub open spec fn tree_of(n: Node) -> Tree
    decreases n,
{
    match n {
        Node::Leaf(id) => Tree::Leaf(id),
        Node::Split { dir, fracs, kids } => Tree::Split {
            dir,
            fracs: fracs@,
            kids: Seq::new(
                kids@.len(),
                |i: int|
                    if 0 <= i < kids@.len() {
                        tree_of(kids@[i])
                    } else {
                        Tree::Leaf(0)
                    },
            ),
        },
    }
}

impl View for Node {
    type V = Tree;

    open spec fn view(&self) -> Tree {
        tree_of(*self)
    }
}

/// What the model of a split node holds.
pub proof fn lemma_node_view(n: Node)
    ensures
        match n {
            Node::Leaf(id) => n@ == Tree::Leaf(id),
            Node::Split { dir, fracs, kids } => {
                &&& n@ is Split
                &&& n@->dir == dir
                &&& n@->fracs == fracs@
                &&& n@->kids.len() == kids@.len()
                &&& forall|i: int| 0 <= i < kids@.len() ==> #[trigger] n@->kids[i] == kids@[i]@
            },
        },
{
}

/// The panes of a tree, in the order in which they are drawn.
pub open spec fn leaves(t: Tree) -> Seq<PaneId>
    decreases t, 0int,
{
    match t {
        Tree::Leaf(id) => seq![id],
        Tree::Split { kids, .. } => leaves_of(kids),
    }
}

pub open spec fn leaves_of(kids: Seq<Tree>) -> Seq<PaneId>
    decreases kids, 1int,
{
    if kids.len() == 0 {
        Seq::empty()
    } else {
        leaves_of(kids.drop_last()) + leaves(kids.last())
    }
}

fn push_leaves(node: &Node, v: &mut Vec<PaneId>)
    ensures
        final(v)@ == old(v)@ + leaves(node@),
    decreases node,
{
    match node {
        Node::Leaf(id) => {
            v.push(*id);
        },
        Node::Split { kids, .. } => {
            proof {
                lemma_node_view(*node);
            }
            let ghost trees = node@->kids;
            let mut i: usize = 0;
            assert(trees.take(0) =~= Seq::empty());
            while i < kids.len()
                invariant
                    i <= kids.len(),
                    decreases_to!(node => kids@),
                    trees.len() == kids@.len(),
                    forall|j: int| 0 <= j < kids@.len() ==> #[trigger] trees[j] == kids@[j]@,
                    v@ == old(v)@ + leaves_of(trees.take(i as int)),
                decreases kids.len() - i,
            {
                push_leaves(&kids[i], v);
                proof {
                    let part = trees.take(i as int + 1);
                    assert(part.drop_last() =~= trees.take(i as int));
                    assert(part.last() == kids@[i as int]@);
                }
                i += 1;
            }
            assert(trees.take(i as int) =~= trees);
        },
    }
}

/// Every pane of the tree, in drawing order.
pub fn collect_leaves(node: &Node) -> (v: Vec<PaneId>)
    ensures
        v@ == leaves(node@),
{
    let mut v: Vec<PaneId> = Vec::new();
    push_leaves(node, &mut v);
    v
}

/// The sum of the shares of a split.
pub open spec fn total_share(fracs: Seq<u64>) -> nat
    decreases fracs.len(),
{
    if fracs.len() == 0 {
        0
    } else {
        total_share(fracs.drop_last()) + fracs.last() as nat
    }
}

/// Every split has two children or more, gives each of them one share, and
/// hands out no more than the whole.
pub open spec fn wf(t: Tree) -> bool
    decreases t,
{
    match t {
        Tree::Leaf(_) => true,
        Tree::Split { fracs, kids, .. } => {
            &&& fracs.len() == kids.len()
            &&& kids.len() >= 2
            &&& total_share(fracs) <= ONE
            &&& forall|i: int| 0 <= i < kids.len() ==> wf(#[trigger] kids[i])
        },
    }
}

/// Index of the first child that is itself the pane `id`; the number of
/// children when there is none.
pub open spec fn leaf_pos(kids: Seq<Tree>, id: PaneId) -> int
    decreases kids.len(),
{
    if kids.len() == 0 || kids[0] == Tree::Leaf(id) {
        0
    } else {
        1 + leaf_pos(kids.drop_first(), id)
    }
}

/// Index of the first child that has the pane `id` somewhere below it; the
/// number of children when there is none.
pub open spec fn holder_pos(kids: Seq<Tree>, id: PaneId) -> int
    decreases kids.len(),
{
    if kids.len() == 0 || leaves(kids[0]).contains(id) {
        0
    } else {
        1 + holder_pos(kids.drop_first(), id)
    }
}

/// `fracs` with the share at `i` cut in two.
pub open spec fn halved(fracs: Seq<u64>, i: int) -> Seq<u64> {
    let f = fracs[i];
    fracs.update(i, (f / 2) as u64).insert(i + 1, (f - f / 2) as u64)
}

/// The tree after the pane `target` is split in direction `dir`, `new_id`
/// placed before or after it: a sibling where the parent split already runs
/// in that direction, a nested split otherwise.
pub open spec fn split_tree(t: Tree, target: PaneId, dir: Dir, new_id: PaneId, before: bool) -> Tree
    decreases t,
{
    match t {
        Tree::Leaf(id) => if id != target {
            t
        } else if before {
            Tree::Split { dir, fracs: seq![ONE / 2, ONE / 2], kids: seq![Tree::Leaf(new_id), t] }
        } else {
            Tree::Split { dir, fracs: seq![ONE / 2, ONE / 2], kids: seq![t, Tree::Leaf(new_id)] }
        },
        Tree::Split { dir: d, fracs, kids } => {
            let i = leaf_pos(kids, target);
            let j = holder_pos(kids, target);
            if d == dir && i < kids.len() {
                Tree::Split {
                    dir: d,
                    fracs: halved(fracs, i),
                    kids: kids.insert(if before { i } else { i + 1 }, Tree::Leaf(new_id)),
                }
            } else if 0 <= j < kids.len() {
                Tree::Split {
                    dir: d,
                    fracs,
                    kids: kids.update(j, split_tree(kids[j], target, dir, new_id, before)),
                }
            } else {
                t
            }
        },
    }
}

pub proof fn lemma_leaf_pos(kids: Seq<Tree>, id: PaneId)
    ensures
        0 <= leaf_pos(kids, id) <= kids.len(),
        leaf_pos(kids, id) < kids.len() ==> kids[leaf_pos(kids, id)] == Tree::Leaf(id),
        forall|j: int| 0 <= j < leaf_pos(kids, id) ==> #[trigger] kids[j] != Tree::Leaf(id),
    decreases kids.len(),
{
    if kids.len() > 0 && kids[0] != Tree::Leaf(id) {
        lemma_leaf_pos(kids.drop_first(), id);
        assert forall|j: int| 0 <= j < leaf_pos(kids, id) implies #[trigger] kids[j] != Tree::Leaf(
            id,
        ) by {
            if j > 0 {
                assert(kids[j] == kids.drop_first()[j - 1]);
            }
        }
    }
}

/// `leaf_pos` is the only index with these properties.
pub proof fn lemma_leaf_pos_is(kids: Seq<Tree>, id: PaneId, i: int)
    requires
        0 <= i <= kids.len(),
        i < kids.len() ==> kids[i] == Tree::Leaf(id),
        forall|j: int| 0 <= j < i ==> #[trigger] kids[j] != Tree::Leaf(id),
    ensures
        leaf_pos(kids, id) == i,
{
    lemma_leaf_pos(kids, id);
    let p = leaf_pos(kids, id);
    if p < i {
        assert(kids[p] != Tree::Leaf(id));
    }
}

pub proof fn lemma_holder_pos(kids: Seq<Tree>, id: PaneId)
    ensures
        0 <= holder_pos(kids, id) <= kids.len(),
        holder_pos(kids, id) < kids.len() ==> leaves(kids[holder_pos(kids, id)]).contains(id),
        forall|j: int|
            0 <= j < holder_pos(kids, id) ==> !leaves(#[trigger] kids[j]).contains(id),
    decreases kids.len(),
{
    if kids.len() > 0 && !leaves(kids[0]).contains(id) {
        lemma_holder_pos(kids.drop_first(), id);
        assert forall|j: int| 0 <= j < holder_pos(kids, id) implies !leaves(
            #[trigger] kids[j],
        ).contains(id) by {
            if j > 0 {
                assert(kids[j] == kids.drop_first()[j - 1]);
            }
        }
    }
}

/// `holder_pos` is the only index with these properties.
pub proof fn lemma_holder_pos_is(kids: Seq<Tree>, id: PaneId, i: int)
    requires
        0 <= i <= kids.len(),
        i < kids.len() ==> leaves(kids[i]).contains(id),
        forall|j: int| 0 <= j < i ==> !leaves(#[trigger] kids[j]).contains(id),
    ensures
        holder_pos(kids, id) == i,
{
    lemma_holder_pos(kids, id);
    let p = holder_pos(kids, id);
    if p < i {
        assert(!leaves(kids[p]).contains(id));
    }
}

/// A pane is in a split exactly when it is in one of its children.
pub proof fn lemma_leaves_of_contains(kids: Seq<Tree>, id: PaneId)
    ensures
        leaves_of(kids).contains(id) <==> exists|i: int|
            0 <= i < kids.len() && leaves(#[trigger] kids[i]).contains(id),
    decreases kids.len(),
{
    if kids.len() > 0 {
        let init = kids.drop_last();
        lemma_leaves_of_contains(init, id);
        let a = leaves_of(init);
        let b = leaves(kids.last());
        if (a + b).contains(id) {
            let k = choose|k: int| 0 <= k < (a + b).len() && (a + b)[k] == id;
            if k < a.len() {
                assert(a[k] == id);
                let i = choose|i: int| 0 <= i < init.len() && leaves(#[trigger] init[i]).contains(id);
                assert(kids[i] == init[i]);
            } else {
                assert(b[k - a.len()] == id);
                assert(leaves(kids[kids.len() - 1]).contains(id));
            }
        }
        if exists|i: int| 0 <= i < kids.len() && leaves(#[trigger] kids[i]).contains(id) {
            let i = choose|i: int| 0 <= i < kids.len() && leaves(#[trigger] kids[i]).contains(id);
            if i < init.len() {
                assert(init[i] == kids[i]);
                assert(a.contains(id));
                let k = choose|k: int| 0 <= k < a.len() && a[k] == id;
                assert((a + b)[k] == id);
            } else {
                let k = choose|k: int| 0 <= k < b.len() && b[k] == id;
                assert((a + b)[a.len() + k] == id);
            }
        }
    }
}

/// Whether `trees` holds the models of `kids`.
pub open spec fn same_trees(trees: Seq<Tree>, kids: Seq<Node>) -> bool {
    &&& trees.len() == kids.len()
    &&& forall|j: int| 0 <= j < kids.len() ==> #[trigger] trees[j] == kids[j]@
}

/// Index of the first child that is itself the pane `id`, if any.
fn find_leaf(kids: &Vec<Node>, id: PaneId) -> (r: Option<usize>)
    ensures
        forall|trees: Seq<Tree>|
            same_trees(trees, kids@) ==> #[trigger] leaf_pos(trees, id) == (match r {
                Some(i) => i as int,
                None => kids@.len() as int,
            }),
        r is Some ==> r->0 < kids@.len(),
{
    let mut i: usize = 0;
    while i < kids.len()
        invariant
            i <= kids.len(),
            forall|j: int| 0 <= j < i ==> (#[trigger] kids@[j])@ != Tree::Leaf(id),
        decreases kids.len() - i,
    {
        proof {
            lemma_node_view(kids@[i as int]);
        }
        let hit = match &kids[i] {
            Node::Leaf(k) => *k == id,
            Node::Split { .. } => false,
        };
        if hit {
            assert forall|trees: Seq<Tree>|
                same_trees(trees, kids@) implies #[trigger] leaf_pos(
                trees,
                id,
            ) == i as int by {
                assert forall|j: int| 0 <= j < i implies #[trigger] trees[j] != Tree::Leaf(id) by {
                    assert(trees[j] == kids@[j]@);
                }
                assert(trees[i as int] == kids@[i as int]@);
                lemma_leaf_pos_is(trees, id, i as int);
            }
            return Some(i);
        }
        i += 1;
    }
    assert forall|trees: Seq<Tree>|
        same_trees(trees, kids@) implies #[trigger] leaf_pos(
        trees,
        id,
    ) == kids@.len() as int by {
        assert forall|j: int| 0 <= j < trees.len() implies #[trigger] trees[j] != Tree::Leaf(id) by {
            assert(trees[j] == kids@[j]@);
        }
        lemma_leaf_pos_is(trees, id, trees.len() as int);
    }
    None
}

/// Whether the pane `id` is in the tree.
pub fn has_leaf(node: &Node, id: PaneId) -> (r: bool)
    ensures
        r == leaves(node@).contains(id),
    decreases node,
{
    proof {
        lemma_node_view(*node);
    }
    match node {
        Node::Leaf(k) => {
            assert(leaves(node@)[0] == *k);
            *k == id
        },
        Node::Split { kids, .. } => {
            let ghost trees = node@->kids;
            proof {
                lemma_leaves_of_contains(trees, id);
            }
            let mut i: usize = 0;
            while i < kids.len()
                invariant
                    i <= kids.len(),
                    decreases_to!(node => kids@),
                    forall|j: int| 0 <= j < i ==> !leaves((#[trigger] kids@[j])@).contains(id),
                    leaves(node@).contains(id) <==> exists|i: int|
                        0 <= i < trees.len() && leaves(#[trigger] trees[i]).contains(id),
                    trees.len() == kids@.len(),
                    forall|j: int| 0 <= j < kids@.len() ==> #[trigger] trees[j] == kids@[j]@,
                decreases kids.len() - i,
            {
                if has_leaf(&kids[i], id) {
                    assert(leaves(trees[i as int]).contains(id));
                    return true;
                }
                i += 1;
            }
            false
        },
    }
}

/// Index of the first child that has the pane `id` somewhere below it.
fn find_holder(kids: &Vec<Node>, id: PaneId) -> (r: Option<usize>)
    ensures
        forall|trees: Seq<Tree>|
            same_trees(trees, kids@) ==> #[trigger] holder_pos(trees, id) == (match r {
                Some(i) => i as int,
                None => kids@.len() as int,
            }),
        r is Some ==> r->0 < kids@.len(),
{
    let mut i: usize = 0;
    while i < kids.len()
        invariant
            i <= kids.len(),
            forall|j: int| 0 <= j < i ==> !leaves((#[trigger] kids@[j])@).contains(id),
        decreases kids.len() - i,
    {
        if has_leaf(&kids[i], id) {
            assert forall|trees: Seq<Tree>| same_trees(trees, kids@) implies #[trigger] holder_pos(
                trees,
                id,
            ) == i as int by {
                assert(trees[i as int] == kids@[i as int]@);
                lemma_holder_pos_is(trees, id, i as int);
            }
            return Some(i);
        }
        i += 1;
    }
    assert forall|trees: Seq<Tree>| same_trees(trees, kids@) implies #[trigger] holder_pos(
        trees,
        id,
    ) == kids@.len() as int by {
        lemma_holder_pos_is(trees, id, trees.len() as int);
    }
    None
}

/// Split the pane `target` in direction `dir`, placing `new_id` before or
/// after it.
fn split_beside(root: &mut Node, target: PaneId, dir: Dir, new_id: PaneId, before: bool) -> (r:
    bool)
    requires
        wf(old(root)@),
    ensures
        r == leaves(old(root)@).contains(target),
        final(root)@ == split_tree(old(root)@, target, dir, new_id, before),
    decreases *old(root),
{
    proof {
        lemma_node_view(*root);
    }
    let ghost t0 = root@;
    match root {
        Node::Leaf(id) => {
            assert(leaves(t0)[0] == *id);
            if *id != target {
                return false;
            }
        },
        Node::Split { dir: d, fracs, kids } => {
            let ghost trees = t0->kids;
            let n: usize = kids.len();
            proof {
                lemma_leaf_pos(trees, target);
                lemma_holder_pos(trees, target);
                lemma_leaves_of_contains(trees, target);
                assert(same_trees(trees, kids@));
            }
            if *d == dir {
                if let Some(i) = find_leaf(kids, target) {
                    let f = fracs[i];
                    fracs.set(i, f / 2);
                    fracs.insert(i + 1, f - f / 2);
                    kids.insert(if before { i } else { i + 1 }, Node::Leaf(new_id));
                    proof {
                        assert(trees[i as int] == Tree::Leaf(target));
                        assert(leaves(trees[i as int])[0] == target);
                        lemma_node_view(Node::Leaf(new_id));
                        lemma_node_view(*root);
                        let t1 = split_tree(t0, target, dir, new_id, before);
                        assert(root@->kids =~= t1->kids);
                    }
                    return true;
                }
            }
            return match find_holder(kids, target) {
                Some(j) => {
                    assert(wf(trees[j as int]));
                    assert(leaves(trees[j as int]).contains(target));
                    let r = split_beside(&mut kids[j], target, dir, new_id, before);
                    proof {
                        lemma_node_view(*root);
                        let t1 = split_tree(t0, target, dir, new_id, before);
                        assert(root@->kids =~= t1->kids);
                    }
                    r
                },
                None => false,
            };
        },
    }
    let mut kids: Vec<Node> = Vec::new();
    if before {
        kids.push(Node::Leaf(new_id));
        kids.push(Node::Leaf(target));
    } else {
        kids.push(Node::Leaf(target));
        kids.push(Node::Leaf(new_id));
    }
    let mut fracs: Vec<u64> = Vec::new();
    fracs.push(ONE / 2);
    fracs.push(ONE / 2);
    *root = Node::Split { dir, fracs, kids };
    proof {
        lemma_node_view(*root);
        lemma_node_view(Node::Leaf(new_id));
        lemma_node_view(Node::Leaf(target));
        let t1 = split_tree(t0, target, dir, new_id, before);
        assert(root@->kids =~= t1->kids);
        assert(root@->fracs =~= t1->fracs);
    }
    true
}

/// Split the pane `target`, placing `new_id` after it in direction `dir`.
/// Nothing changes where there is no such pane.
pub fn split(root: &mut Node, target: PaneId, dir: Dir, new_id: PaneId) -> (r: bool)
    requires
        wf(old(root)@),
    ensures
        r == leaves(old(root)@).contains(target),
        final(root)@ == split_tree(old(root)@, target, dir, new_id, false),
{
    split_beside(root, target, dir, new_id, false)
}

/// The shares that are left when a sibling with the share `freed` goes: each
/// grows in proportion, and together they make up what there was. The cuts
/// between them are rounded down.
pub open spec fn spread(fracs: Seq<u64>, freed: u64) -> Seq<u64> {
    let rest = total_share(fracs);
    if rest == 0 {
        fracs
    } else {
        Seq::new(fracs.len(), |i: int| (cut(fracs, freed, i + 1) - cut(fracs, freed, i)) as u64)
    }
}

/// Where the share with index `i` starts after `freed` is spread.
pub open spec fn cut(fracs: Seq<u64>, freed: u64, i: int) -> int {
    total_share(fracs.take(i)) as int * (total_share(fracs) + freed) / total_share(fracs) as int
}

/// The tree after the pane `target` is taken out of the split that holds it
/// directly; a split left with one child becomes that child.
pub open spec fn remove_tree(t: Tree, target: PaneId) -> Tree
    decreases t,
{
    match t {
        Tree::Leaf(_) => t,
        Tree::Split { dir, fracs, kids } => {
            let i = leaf_pos(kids, target);
            let j = holder_pos(kids, target);
            if i < kids.len() {
                let rest = kids.remove(i);
                if rest.len() == 1 {
                    rest[0]
                } else {
                    Tree::Split { dir, fracs: spread(fracs.remove(i), fracs[i]), kids: rest }
                }
            } else if 0 <= j < kids.len() {
                Tree::Split { dir, fracs, kids: kids.update(j, remove_tree(kids[j], target)) }
            } else {
                t
            }
        },
    }
}

/// One share more.
pub proof fn lemma_total_share_take(fracs: Seq<u64>, i: int)
    requires
        0 <= i < fracs.len(),
    ensures
        total_share(fracs.take(i + 1)) == total_share(fracs.take(i)) + fracs[i],
        total_share(fracs.take(i + 1)) <= total_share(fracs),
    decreases fracs.len() - i,
{
    assert(fracs.take(i + 1).drop_last() =~= fracs.take(i));
    if i + 1 == fracs.len() {
        assert(fracs.take(i + 1) =~= fracs);
    } else {
        lemma_total_share_take(fracs, i + 1);
    }
}

proof fn lemma_scaled_step(p: int, f: int, t: int, r: int)
    requires
        0 <= p,
        0 <= f,
        0 < r <= t,
    ensures
        p * t / r <= (p + f) * t / r,
        f * t / r <= (p + f) * t / r - p * t / r <= f * t / r + 1,
        f <= f * t / r,
{
    let a = p * t;
    let b = f * t;
    assert((p + f) * t == a + b) by (nonlinear_arith)
        requires
            a == p * t,
            b == f * t,
    ;
    assert(b >= f * r) by (nonlinear_arith)
        requires
            b == f * t,
            0 <= f,
            r <= t,
    ;
    assert(a >= 0) by (nonlinear_arith)
        requires
            a == p * t,
            0 <= p,
            0 < t,
    ;
    assert(a / r + b / r <= (a + b) / r <= a / r + b / r + 1) by (nonlinear_arith)
        requires
            0 < r,
            0 <= a,
            0 <= b,
    ;
    assert(b / r >= f) by (nonlinear_arith)
        requires
            b >= f * r,
            0 < r,
    ;
    assert(b / r >= 0) by (nonlinear_arith)
        requires
            0 <= b,
            0 < r,
    ;
}

/// Spreading keeps the total, and no share shrinks.
pub proof fn lemma_spread(fracs: Seq<u64>, freed: u64)
    requires
        0 < total_share(fracs),
        total_share(fracs) + freed <= ONE,
    ensures
        spread(fracs, freed).len() == fracs.len(),
        total_share(spread(fracs, freed)) == total_share(fracs) + freed,
        forall|i: int| 0 <= i < fracs.len() ==> fracs[i] <= #[trigger] spread(fracs, freed)[i],
        forall|i: int| #![trigger cut(fracs, freed, i)]
            0 <= i < fracs.len() ==> 0 <= cut(fracs, freed, i) <= cut(fracs, freed, i + 1) <= ONE,
{
    let out = spread(fracs, freed);
    let rest = total_share(fracs) as int;
    let all = rest + freed as int;
    assert forall|i: int| #![trigger cut(fracs, freed, i)] 0 <= i < fracs.len() implies {
        &&& 0 <= cut(fracs, freed, i) <= cut(fracs, freed, i + 1) <= ONE
        &&& fracs[i] <= out[i]
        &&& out[i] == cut(fracs, freed, i + 1) - cut(fracs, freed, i)
    } by {
        lemma_total_share_take(fracs, i);
        let p = total_share(fracs.take(i)) as int;
        let f = fracs[i] as int;
        lemma_scaled_step(p, f, all, rest);
        assert(0 <= p * all / rest && (p + f) * all / rest <= all) by (nonlinear_arith)
            requires
                0 <= p,
                0 <= f,
                p + f <= rest,
                0 < rest <= all,
        ;
    }
    assert forall|i: int| 0 <= i < fracs.len() implies fracs[i] <= #[trigger] out[i] by {
        assert(0 <= cut(fracs, freed, i));
    }
    lemma_spread_sum(fracs, freed, fracs.len() as int);
    assert(out.take(fracs.len() as int) =~= out);
    assert(fracs.take(fracs.len() as int) =~= fracs);
    assert(rest * all / rest == all) by (nonlinear_arith)
        requires
            0 < rest,
    ;
}

proof fn lemma_spread_sum(fracs: Seq<u64>, freed: u64, i: int)
    requires
        0 < total_share(fracs),
        total_share(fracs) + freed <= ONE,
        0 <= i <= fracs.len(),
        forall|i: int| #![trigger cut(fracs, freed, i)]
            0 <= i < fracs.len() ==> 0 <= cut(fracs, freed, i) <= cut(fracs, freed, i + 1) <= ONE,
    ensures
        total_share(spread(fracs, freed).take(i)) == cut(fracs, freed, i),
    decreases i,
{
    let out = spread(fracs, freed);
    if i == 0 {
        assert(fracs.take(0) =~= Seq::empty());
        assert(out.take(0) =~= Seq::empty());
        let rest = total_share(fracs) as int;
        let all = rest + freed as int;
        assert(0 * all / rest == 0) by (nonlinear_arith)
            requires
                0 < rest,
        ;
    } else {
        lemma_spread_sum(fracs, freed, i - 1);
        lemma_total_share_take(out, i - 1);
        assert(0 <= cut(fracs, freed, i - 1));
    }
}

/// Sum of the shares.
fn sum_shares(fracs: &Vec<u64>) -> (r: u64)
    requires
        total_share(fracs@) <= ONE,
    ensures
        r == total_share(fracs@),
{
    let mut r: u64 = 0;
    let mut i: usize = 0;
    assert(fracs@.take(0) =~= Seq::empty());
    while i < fracs.len()
        invariant
            i <= fracs.len(),
            total_share(fracs@) <= ONE,
            r == total_share(fracs@.take(i as int)),
        decreases fracs.len() - i,
    {
        proof {
            lemma_total_share_take(fracs@, i as int);
        }
        r = r + fracs[i];
        i += 1;
    }
    assert(fracs@.take(i as int) =~= fracs@);
    r
}

/// Redistribute the share `freed` over `fracs`, in proportion.
fn spread_share(fracs: &mut Vec<u64>, freed: u64)
    requires
        total_share(old(fracs)@) + freed <= ONE,
    ensures
        final(fracs)@ == spread(old(fracs)@, freed),
{
    let rest: u64 = sum_shares(fracs);
    if rest == 0 {
        return;
    }
    let ghost f0 = fracs@;
    proof {
        lemma_spread(f0, freed);
        assert(f0.take(0) =~= Seq::empty());
    }
    let all: u64 = rest + freed;
    let mut before: u64 = 0;
    let mut start: u64 = 0;
    let mut i: usize = 0;
    assert(0 * all as int / rest as int == 0) by (nonlinear_arith)
        requires
            0 < rest,
    ;
    while i < fracs.len()
        invariant
            i <= fracs.len(),
            fracs@.len() == f0.len(),
            rest == total_share(f0),
            0 < rest <= all == rest + freed,
            all <= ONE,
            before == total_share(f0.take(i as int)),
            start == cut(f0, freed, i as int),
            spread(f0, freed).len() == f0.len(),
            forall|j: int| #![trigger cut(f0, freed, j)]
                0 <= j < f0.len() ==> 0 <= cut(f0, freed, j) <= cut(f0, freed, j + 1) <= ONE,
            forall|j: int| 0 <= j < i ==> #[trigger] fracs@[j] == spread(f0, freed)[j],
            forall|j: int| i <= j < f0.len() ==> #[trigger] fracs@[j] == f0[j],
        decreases fracs.len() - i,
    {
        proof {
            lemma_total_share_take(f0, i as int);
            assert(0 <= cut(f0, freed, i as int));
        }
        let upto: u64 = before + fracs[i];
        assert(upto * all <= 0x1000_0000_0000_0000) by (nonlinear_arith)
            requires
                upto <= 0x4000_0000,
                all <= 0x4000_0000,
        ;
        let end: u64 = upto * all / rest;
        fracs.set(i, end - start);
        before = upto;
        start = end;
        i += 1;
    }
    assert(fracs@ =~= spread(f0, freed));
}

/// Remove a pane from below a split, collapsing a split left with one child.
fn remove_below(node: &mut Node, target: PaneId) -> (r: bool)
    requires
        wf(old(node)@),
    ensures
        r == (old(node)@ is Split && leaves(old(node)@).contains(target)),
        final(node)@ == remove_tree(old(node)@, target),
    decreases *old(node),
{
    proof {
        lemma_node_view(*node);
    }
    let ghost t0 = node@;
    let mut only: Option<Node> = None;
    match node {
        Node::Leaf(_) => {
            return false;
        },
        Node::Split { dir: _, fracs, kids } => {
            let ghost trees = t0->kids;
            proof {
                lemma_leaf_pos(trees, target);
                lemma_holder_pos(trees, target);
                lemma_leaves_of_contains(trees, target);
                assert(same_trees(trees, kids@));
            }
            match find_leaf(kids, target) {
                Some(i) => {
                    proof {
                        assert(trees[i as int] == Tree::Leaf(target));
                        assert(leaves(trees[i as int])[0] == target);
                        lemma_total_share_remove(fracs@, i as int);
                    }
                    kids.remove(i);
                    let freed = fracs.remove(i);
                    spread_share(fracs, freed);
                    if kids.len() == 1 {
                        only = kids.pop();
                    }
                },
                None => {
                    return match find_holder(kids, target) {
                        Some(j) => {
                            assert(wf(trees[j as int]));
                            assert(leaves(trees[j as int]).contains(target));
                            proof {
                                lemma_node_view(kids@[j as int]);
                                if trees[j as int] is Leaf {
                                    assert(leaves(trees[j as int])[0] == trees[j as int]->0);
                                }
                            }
                            let r = remove_below(&mut kids[j], target);
                            proof {
                                lemma_node_view(*node);
                                assert(node@->kids =~= remove_tree(t0, target)->kids);
                            }
                            r
                        },
                        None => false,
                    };
                },
            }
        },
    }
    match only {
        Some(k) => {
            *node = k;
        },
        None => {
            proof {
                lemma_node_view(*node);
                assert(node@->kids =~= remove_tree(t0, target)->kids);
            }
        },
    }
    true
}

proof fn lemma_total_share_remove(fracs: Seq<u64>, i: int)
    requires
        0 <= i < fracs.len(),
    ensures
        total_share(fracs.remove(i)) + fracs[i] == total_share(fracs),
    decreases fracs.len(),
{
    let out = fracs.remove(i);
    if i == fracs.len() - 1 {
        assert(out =~= fracs.drop_last());
    } else {
        assert(out.drop_last() =~= fracs.drop_last().remove(i));
        assert(out.last() == fracs.last());
        lemma_total_share_remove(fracs.drop_last(), i);
    }
}

/// Remove a pane, collapsing a split left with one child. Returns false,
/// changing nothing, where `target` is the last pane (the caller closes the
/// tab) or is not in the tree.
pub fn remove(root: &mut Node, target: PaneId) -> (r: bool)
    requires
        wf(old(root)@),
    ensures
        r == (old(root)@ is Split && leaves(old(root)@).contains(target)),
        final(root)@ == remove_tree(old(root)@, target),
{
    remove_below(root, target)
}

/// A rectangle in units of length.
#[derive(Clone, Copy, Debug, PartialEq, Eq, Structural)]
pub struct RectF {
    pub x: i64,
    pub y: i64,
    pub w: i64,
    pub h: i64,
}

impl Default for RectF {
    fn default() -> (r: RectF)
        ensures
            r == (RectF { x: 0, y: 0, w: 0, h: 0 }),
    {
        RectF { x: 0, y: 0, w: 0, h: 0 }
    }
}

/// The rectangle that a `RectF` stands for.
pub struct Area {
    pub x: int,
    pub y: int,
    pub w: int,
    pub h: int,
}

impl View for RectF {
    type V = Area;

    open spec fn view(&self) -> Area {
        Area { x: self.x as int, y: self.y as int, w: self.w as int, h: self.h as int }
    }
}

/// Whether the point lies in the area: edges at the left and top belong to
/// it, those at the right and bottom do not.
pub open spec fn area_has(a: Area, px: int, py: int) -> bool {
    a.x <= px < a.x + a.w && a.y <= py < a.y + a.h
}

/// Largest extent of an area that is laid out, in units of length.
pub const MAX_EXTENT: i64 = 0x1_0000_0000;

/// Largest distance of an area's corner from the origin.
pub const MAX_COORD: i64 = 0x100_0000_0000;

/// Largest number of panes in one tree.
pub const MAX_PANES: u64 = 0x100_0000_0000;

/// An area a window can have.
pub open spec fn area_ok(a: Area) -> bool {
    &&& -MAX_COORD <= a.x <= MAX_COORD
    &&& -MAX_COORD <= a.y <= MAX_COORD
    &&& 0 <= a.w <= MAX_EXTENT
    &&& 0 <= a.h <= MAX_EXTENT
}

impl RectF {
    pub fn contains(&self, px: i64, py: i64) -> (r: bool)
        ensures
            r == area_has(self@, px as int, py as int),
    {
        px >= self.x && (px as i128) < self.x as i128 + self.w as i128 && py >= self.y && (
        py as i128) < self.y as i128 + self.h as i128
    }

    /// The middle of the rectangle, rounded down.
    pub fn center(&self) -> (r: (i64, i64))
        requires
            i64::MIN <= self.x + self.w / 2 <= i64::MAX,
            i64::MIN <= self.y + self.h / 2 <= i64::MAX,
            0 <= self.w,
            0 <= self.h,
        ensures
            r.0 == self.x + self.w / 2,
            r.1 == self.y + self.h / 2,
    {
        (self.x + self.w / 2, self.y + self.h / 2)
    }
}

/// A draggable divider between two siblings of a split.
pub struct Divider {
    pub rect: RectF,
    /// Path of child indices from the root to the split node.
    pub path: Vec<usize>,
    /// The divider sits between the children `index` and `index + 1`.
    pub index: usize,
    pub dir: Dir,
}

/// The divider that a `Divider` stands for.
pub struct Gutter {
    pub rect: Area,
    pub path: Seq<usize>,
    pub index: usize,
    pub dir: Dir,
}

impl View for Divider {
    type V = Gutter;

    open spec fn view(&self) -> Gutter {
        Gutter { rect: self.rect@, path: self.path@, index: self.index, dir: self.dir }
    }
}

/// Where the panes and dividers of a tree are.
pub struct Layout {
    pub panes: Vec<(PaneId, RectF)>,
    pub dividers: Vec<Divider>,
}

/// The panes of a layout with their areas.
pub open spec fn placed(panes: Seq<(PaneId, RectF)>) -> Seq<(PaneId, Area)> {
    panes.map_values(|p: (PaneId, RectF)| (p.0, p.1@))
}

pub open spec fn gutters(dividers: Seq<Divider>) -> Seq<Gutter> {
    dividers.map_values(|d: Divider| d@)
}

/// The extent of an area along the axis of a split.
pub open spec fn along(a: Area, dir: Dir) -> int {
    match dir {
        Dir::Row => a.w,
        Dir::Col => a.h,
    }
}

/// What is left of the extent for `n` children, dividers taken off.
pub open spec fn room(a: Area, dir: Dir, n: int) -> int {
    let left = along(a, dir) - GAP * (n - 1);
    if left < 0 {
        0
    } else {
        left
    }
}

/// The extent of the child with index `i`.
pub open spec fn extent(a: Area, dir: Dir, fracs: Seq<u64>, i: int) -> int {
    room(a, dir, fracs.len() as int) * fracs[i] / ONE as int
}

/// Where the child with index `i` starts, from the start of its split.
pub open spec fn offset(a: Area, dir: Dir, fracs: Seq<u64>, i: int) -> int
    decreases i,
{
    if i <= 0 {
        0
    } else {
        offset(a, dir, fracs, i - 1) + extent(a, dir, fracs, i - 1) + GAP
    }
}

/// The strip of `a` that starts `from` units into it along `dir` and is `len`
/// units long.
pub open spec fn strip(a: Area, dir: Dir, from: int, len: int) -> Area {
    match dir {
        Dir::Row => Area { x: a.x + from, y: a.y, w: len, h: a.h },
        Dir::Col => Area { x: a.x, y: a.y + from, w: a.w, h: len },
    }
}

/// The area of the child with index `i` of a split.
pub open spec fn kid_area(a: Area, dir: Dir, fracs: Seq<u64>, i: int) -> Area {
    strip(a, dir, offset(a, dir, fracs, i), extent(a, dir, fracs, i))
}

pub open spec fn kid_count(t: Tree) -> int {
    match t {
        Tree::Leaf(_) => 0,
        Tree::Split { kids, .. } => kids.len() as int,
    }
}

/// The panes of the tree with their areas, in drawing order.
pub open spec fn panes_of(t: Tree, a: Area) -> Seq<(PaneId, Area)>
    decreases t, kid_count(t) + 1,
{
    match t {
        Tree::Leaf(id) => seq![(id, a)],
        Tree::Split { kids, .. } => panes_upto(t, a, kids.len() as int),
    }
}

/// The panes below the first `n` children of a split.
pub open spec fn panes_upto(t: Tree, a: Area, n: int) -> Seq<(PaneId, Area)>
    decreases t, n,
{
    match t {
        Tree::Leaf(_) => Seq::empty(),
        Tree::Split { dir, fracs, kids } => if 0 < n <= kids.len() {
            panes_upto(t, a, n - 1) + panes_of(kids[n - 1], kid_area(a, dir, fracs, n - 1))
        } else {
            Seq::empty()
        },
    }
}

/// The dividers of the tree, those inside a child before the one behind it.
pub open spec fn gutters_of(t: Tree, a: Area, path: Seq<usize>) -> Seq<Gutter>
    decreases t, kid_count(t) + 1,
{
    match t {
        Tree::Leaf(_) => Seq::empty(),
        Tree::Split { kids, .. } => gutters_upto(t, a, path, kids.len() as int),
    }
}

/// The dividers inside and behind the first `n` children of a split.
pub open spec fn gutters_upto(t: Tree, a: Area, path: Seq<usize>, n: int) -> Seq<Gutter>
    decreases t, n,
{
    match t {
        Tree::Leaf(_) => Seq::empty(),
        Tree::Split { dir, fracs, kids } => if 0 < n <= kids.len() {
            let k = (n - 1) as usize;
            gutters_upto(t, a, path, n - 1) + gutters_of(
                kids[n - 1],
                kid_area(a, dir, fracs, n - 1),
                path.push(k),
            ) + if n < kids.len() {
                seq![
                    Gutter {
                        rect: strip(a, dir, offset(a, dir, fracs, n) - GAP, GAP as int),
                        path,
                        index: k,
                        dir,
                    },
                ]
            } else {
                Seq::empty()
            }
        } else {
            Seq::empty()
        },
    }
}

pub proof fn lemma_leaves_of_concat(a: Seq<Tree>, b: Seq<Tree>)
    ensures
        leaves_of(a + b) == leaves_of(a) + leaves_of(b),
    decreases b.len(),
{
    if b.len() == 0 {
        assert(a + b =~= a);
    } else {
        assert((a + b).drop_last() =~= a + b.drop_last());
        lemma_leaves_of_concat(a, b.drop_last());
    }
}

/// The leaves of a split, seen from its child `i`.
pub proof fn lemma_leaves_of_at(kids: Seq<Tree>, i: int)
    requires
        0 <= i < kids.len(),
    ensures
        leaves_of(kids) == leaves_of(kids.take(i)) + leaves(kids[i]) + leaves_of(kids.skip(i + 1)),
{
    let one = seq![kids[i]];
    assert(kids =~= kids.take(i) + one + kids.skip(i + 1));
    lemma_leaves_of_concat(kids.take(i) + one, kids.skip(i + 1));
    lemma_leaves_of_concat(kids.take(i), one);
    lemma_leaves_of_one(kids[i]);
}

/// The panes of a lone child.
pub proof fn lemma_leaves_of_one(t: Tree)
    ensures
        leaves_of(seq![t]) == leaves(t),
{
    let one = seq![t];
    assert(one.drop_last() =~= Seq::<Tree>::empty());
    assert(one.last() == t);
    assert(leaves_of(one.drop_last()) =~= Seq::<PaneId>::empty());
    assert(leaves_of(one) =~= leaves(t));
}

/// A well-formed tree has a pane.
pub proof fn lemma_has_leaf(t: Tree)
    requires
        wf(t),
    ensures
        leaves(t).len() >= 1,
    decreases t,
{
    if let Tree::Split { kids, .. } = t {
        lemma_has_leaf(kids[kids.len() - 1]);
    }
}

/// The children before `i` have at least `i` panes.
proof fn lemma_leaves_before(kids: Seq<Tree>, i: int)
    requires
        0 <= i <= kids.len(),
        forall|j: int| 0 <= j < kids.len() ==> wf(#[trigger] kids[j]),
    ensures
        leaves_of(kids.take(i)).len() >= i,
    decreases i,
{
    if i > 0 {
        lemma_leaves_before(kids, i - 1);
        assert(kids.take(i).drop_last() =~= kids.take(i - 1));
        lemma_has_leaf(kids[i - 1]);
    }
}

/// A split has room for its child `i` and one pane in each child before it.
proof fn lemma_leaves_room(t: Tree, i: int)
    requires
        wf(t),
        t is Split,
        0 <= i < t->kids.len(),
    ensures
        i + leaves(t->kids[i]).len() <= leaves(t).len(),
        t->kids.len() <= leaves(t).len(),
{
    let kids = t->kids;
    lemma_leaves_of_at(kids, i);
    lemma_leaves_before(kids, i);
    lemma_leaves_before(kids, kids.len() as int);
    assert(kids.take(kids.len() as int) =~= kids);
}

/// The shares before `i`, out of the whole, are never exceeded.
proof fn lemma_offset(a: Area, dir: Dir, fracs: Seq<u64>, i: int)
    requires
        0 <= i <= fracs.len(),
        total_share(fracs) <= ONE,
    ensures
        0 <= room(a, dir, fracs.len() as int),
        GAP * i <= offset(a, dir, fracs, i),
        offset(a, dir, fracs, i) - GAP * i <= room(a, dir, fracs.len() as int) * total_share(
            fracs.take(i),
        ) as int / ONE as int,
        total_share(fracs.take(i)) <= total_share(fracs),
        offset(a, dir, fracs, i) - GAP * i <= room(a, dir, fracs.len() as int),
        i < fracs.len() ==> 0 <= extent(a, dir, fracs, i) && offset(a, dir, fracs, i) + extent(
            a,
            dir,
            fracs,
            i,
        ) - GAP * i <= room(a, dir, fracs.len() as int),
        i < fracs.len() ==> fracs[i] <= ONE,
    decreases i,
{
    let r = room(a, dir, fracs.len() as int);
    let p = total_share(fracs.take(i)) as int;
    if i == 0 {
        assert(fracs.take(0) =~= Seq::empty());
        assert(r * 0 / ONE as int == 0) by (nonlinear_arith);
    } else {
        lemma_offset(a, dir, fracs, i - 1);
        lemma_total_share_take(fracs, i - 1);
        let q = total_share(fracs.take(i - 1)) as int;
        lemma_share_sum(r, q, fracs[i - 1] as int);
    }
    assert(r * p / ONE as int <= r) by (nonlinear_arith)
        requires
            0 <= r,
            0 <= p <= ONE,
    ;
    if i < fracs.len() {
        lemma_total_share_take(fracs, i);
        lemma_share_sum(r, p, fracs[i] as int);
        let s = p + fracs[i] as int;
        assert(r * s / ONE as int <= r) by (nonlinear_arith)
            requires
                0 <= r,
                0 <= s <= ONE,
        ;
    }
}

proof fn lemma_share_sum(r: int, p: int, f: int)
    requires
        0 <= r,
        0 <= p,
        0 <= f,
    ensures
        0 <= r * p / ONE as int,
        0 <= r * f / ONE as int,
        r * p / ONE as int + r * f / ONE as int <= r * (p + f) / ONE as int,
{
    let a = r * p;
    let b = r * f;
    assert(r * (p + f) == a + b) by (nonlinear_arith)
        requires
            a == r * p,
            b == r * f,
    ;
    assert(0 <= a && 0 <= b) by (nonlinear_arith)
        requires
            a == r * p,
            b == r * f,
            0 <= r,
            0 <= p,
            0 <= f,
    ;
}

/// Bound on coordinates inside a layout.
pub const COORD_BOUND: i64 = 0x1000_0000_0000_0000;

/// An area in which `n` panes can be laid out within the range of `i64`.
pub open spec fn area_fits(a: Area, n: int) -> bool {
    &&& 0 <= a.w <= MAX_EXTENT
    &&& 0 <= a.h <= MAX_EXTENT
    &&& -COORD_BOUND <= a.x
    &&& -COORD_BOUND <= a.y
    &&& a.x + a.w + GAP * n <= COORD_BOUND
    &&& a.y + a.h + GAP * n <= COORD_BOUND
}

proof fn lemma_kid_fits(t: Tree, a: Area, i: int)
    requires
        wf(t),
        t is Split,
        0 <= i < t->kids.len(),
        area_fits(a, leaves(t).len() as int),
    ensures
        area_fits(kid_area(a, t->dir, t->fracs, i), leaves(t->kids[i]).len() as int),
        0 <= offset(a, t->dir, t->fracs, i) <= COORD_BOUND * 2,
        0 <= extent(a, t->dir, t->fracs, i) <= MAX_EXTENT,
        offset(a, t->dir, t->fracs, i + 1) <= COORD_BOUND * 2,
        t->fracs[i] <= ONE,
        0 <= room(a, t->dir, t->kids.len() as int) <= MAX_EXTENT,
        t->kids.len() <= leaves(t).len(),
        match t->dir {
            Dir::Row => a.x + offset(a, t->dir, t->fracs, i + 1) <= COORD_BOUND,
            Dir::Col => a.y + offset(a, t->dir, t->fracs, i + 1) <= COORD_BOUND,
        },
{
    lemma_leaves_room(t, i);
    lemma_has_leaf(t->kids[i]);
    lemma_offset(a, t->dir, t->fracs, i);
    lemma_offset(a, t->dir, t->fracs, i + 1);
}

/// The strip of `a` that starts at coordinate `pos` along `dir`.
fn cut_strip(a: &RectF, dir: Dir, pos: i64, len: i64) -> (r: RectF)
    ensures
        r@ == strip(
            a@,
            dir,
            pos - (match dir {
                Dir::Row => a.x,
                Dir::Col => a.y,
            }),
            len as int,
        ),
{
    match dir {
        Dir::Row => RectF { x: pos, y: a.y, w: len, h: a.h },
        Dir::Col => RectF { x: a.x, y: pos, w: a.w, h: len },
    }
}

/// The units of length that `n` children of a split in `a` share out.
fn shared_room(a: &RectF, dir: Dir, n: usize) -> (r: i64)
    requires
        n <= MAX_PANES,
        2 <= n,
        0 <= a.w <= MAX_EXTENT,
        0 <= a.h <= MAX_EXTENT,
    ensures
        r == room(a@, dir, n as int),
{
    let gaps: i64 = GAP * (n as i64 - 1);
    let whole: i64 = match dir {
        Dir::Row => a.w,
        Dir::Col => a.h,
    };
    if whole < gaps {
        0
    } else {
        whole - gaps
    }
}

/// The part of `room` that the share `frac` stands for, rounded down.
fn share_of(room: i64, frac: u64) -> (r: i64)
    requires
        0 <= room <= MAX_EXTENT,
        frac <= ONE,
    ensures
        r == room * frac / ONE as int,
        0 <= r <= room,
{
    assert(0 <= room * frac <= 0x4000_0000_0000_0000 && 0 <= room * frac / ONE as int <= room)
        by (nonlinear_arith)
        requires
            0 <= room <= 0x1_0000_0000,
            0 <= frac <= 0x4000_0000,
            ONE == 0x4000_0000,
    ;
    room * (frac as i64) / (ONE as i64)
}

fn walk(node: &Node, area: RectF, path: &mut Vec<usize>, out: &mut Layout)
    requires
        wf(node@),
        area_fits(area@, leaves(node@).len() as int),
        leaves(node@).len() <= MAX_PANES,
    ensures
        final(path)@ == old(path)@,
        placed(final(out).panes@) == placed(old(out).panes@) + panes_of(node@, area@),
        gutters(final(out).dividers@) == gutters(old(out).dividers@) + gutters_of(
            node@,
            area@,
            old(path)@,
        ),
    decreases node,
{
    proof {
        lemma_node_view(*node);
    }
    let ghost t = node@;
    match node {
        Node::Leaf(id) => {
            out.panes.push((*id, area));
            proof {
                assert(placed(out.panes@) =~= placed(old(out).panes@) + panes_of(t, area@));
                assert(gutters(out.dividers@) =~= gutters(old(out).dividers@) + gutters_of(
                    t,
                    area@,
                    path@,
                ));
            }
        },
        Node::Split { dir, fracs, kids } => {
            let n: usize = kids.len();
            proof {
                lemma_kid_fits(t, area@, 0);
            }
            let total: i64 = shared_room(&area, *dir, n);
            let mut pos: i64 = match dir {
                Dir::Row => area.x,
                Dir::Col => area.y,
            };
            let ghost base = pos as int;
            let mut i: usize = 0;
            proof {
                assert(placed(out.panes@) =~= placed(old(out).panes@) + panes_upto(t, area@, 0));
                assert(gutters(out.dividers@) =~= gutters(old(out).dividers@) + gutters_upto(
                    t,
                    area@,
                    path@,
                    0,
                ));
            }
            while i < n
                invariant
                    i <= n == kids.len(),
                    decreases_to!(node => kids@),
                    t == (Tree::Split { dir: *dir, fracs: fracs@, kids: t->kids }),
                    same_trees(t->kids, kids@),
                    wf(t),
                    area_fits(area@, leaves(t).len() as int),
                    leaves(t).len() <= MAX_PANES,
                    total == room(area@, *dir, n as int),
                    base == (match dir {
                        Dir::Row => area.x,
                        Dir::Col => area.y,
                    }),
                    i < n ==> pos == base + offset(area@, *dir, fracs@, i as int),
                    path@ == old(path)@,
                    placed(out.panes@) == placed(old(out).panes@) + panes_upto(t, area@, i as int),
                    gutters(out.dividers@) == gutters(old(out).dividers@) + gutters_upto(
                        t,
                        area@,
                        path@,
                        i as int,
                    ),
                decreases n - i,
            {
                proof {
                    lemma_kid_fits(t, area@, i as int);
                    lemma_leaves_room(t, i as int);
                    assert(wf(t->kids[i as int]));
                }
                let len: i64 = share_of(total, fracs[i]);
                let r = cut_strip(&area, *dir, pos, len);
                assert(r@ == kid_area(area@, *dir, fracs@, i as int));
                path.push(i);
                assert(path@ == old(path)@.push(((i + 1) - 1) as usize));
                walk(&kids[i], r, path, out);
                path.pop();
                assert(path@ =~= old(path)@);
                pos = pos + len;
                if i + 1 < n {
                    let d = cut_strip(&area, *dir, pos, GAP);
                    let ghost before = out.dividers@;
                    out.dividers.push(
                        Divider { rect: d, path: path.clone(), index: i, dir: *dir },
                    );
                    proof {
                        let last = out.dividers@[before.len() as int];
                        assert(last.path@ =~= path@);
                        assert(gutters(out.dividers@) =~= gutters(before).push(last@));
                    }
                    pos = pos + GAP;
                }
                proof {
                    assert(placed(out.panes@) =~= placed(old(out).panes@) + panes_upto(
                        t,
                        area@,
                        i + 1,
                    ));
                    assert(gutters(out.dividers@) =~= gutters(old(out).dividers@) + gutters_upto(
                        t,
                        area@,
                        path@,
                        i + 1,
                    ));
                }
                i += 1;
            }
        },
    }
}

/// Where the panes and dividers of the tree are in `area`. A zoomed pane has
/// the area to itself.
pub fn layout(root: &Node, area: RectF, zoomed: Option<PaneId>) -> (r: Layout)
    requires
        wf(root@),
        area_ok(area@),
        leaves(root@).len() <= MAX_PANES,
    ensures
        placed(r.panes@) == layout_panes(root@, area@, zoomed),
        gutters(r.dividers@) == layout_gutters(root@, area@, zoomed),
        rects_ok(placed(r.panes@)),
{
    let mut out = Layout { panes: Vec::new(), dividers: Vec::new() };
    if let Some(z) = zoomed {
        if has_leaf(root, z) {
            out.panes.push((z, area));
            proof {
                assert(placed(out.panes@) =~= seq![(z, area@)]);
                assert(gutters(out.dividers@) =~= Seq::empty());
            }
            return out;
        }
    }
    let mut path: Vec<usize> = Vec::new();
    walk(root, area, &mut path, &mut out);
    proof {
        lemma_rects_ok(root@, area@);
        assert(placed(out.panes@) =~= panes_of(root@, area@));
        assert(gutters(out.dividers@) =~= gutters_of(root@, area@, Seq::empty()));
    }
    out
}

/// Whether a pane of the tree is zoomed.
pub open spec fn is_zoomed(t: Tree, zoomed: Option<PaneId>) -> bool {
    zoomed matches Some(z) && leaves(t).contains(z)
}

/// The panes on show and their areas.
pub open spec fn layout_panes(t: Tree, a: Area, zoomed: Option<PaneId>) -> Seq<(PaneId, Area)> {
    if is_zoomed(t, zoomed) {
        seq![(zoomed->0, a)]
    } else {
        panes_of(t, a)
    }
}

/// The dividers on show.
pub open spec fn layout_gutters(t: Tree, a: Area, zoomed: Option<PaneId>) -> Seq<Gutter> {
    if is_zoomed(t, zoomed) {
        Seq::empty()
    } else {
        gutters_of(t, a, Seq::empty())
    }
}

proof fn lemma_total_share_halved(fracs: Seq<u64>, i: int)
    requires
        0 <= i < fracs.len(),
    ensures
        total_share(halved(fracs, i)) == total_share(fracs),
    decreases fracs.len(),
{
    reveal_with_fuel(total_share, 3);
    let out = halved(fracs, i);
    let f = fracs[i];
    if i == fracs.len() - 1 {
        let mid = out.drop_last();
        assert(mid.drop_last() =~= fracs.drop_last());
        assert(out.last() == f - f / 2);
        assert(mid.last() == f / 2);
    } else {
        assert(out.drop_last() =~= halved(fracs.drop_last(), i));
        assert(out.last() == fracs.last());
        lemma_total_share_halved(fracs.drop_last(), i);
    }
}

/// `after` is `l` with `new_id` put right beside an occurrence of `target`.
pub open spec fn put_beside(
    l: Seq<PaneId>,
    after: Seq<PaneId>,
    target: PaneId,
    new_id: PaneId,
    before: bool,
) -> bool {
    exists|k: int|
        0 <= k < l.len() && #[trigger] l[k] == target && after == l.insert(
            if before {
                k
            } else {
                k + 1
            },
            new_id,
        )
}

/// `after` is `l` without one occurrence of `target`.
pub open spec fn taken_out(l: Seq<PaneId>, after: Seq<PaneId>, target: PaneId) -> bool {
    exists|k: int| 0 <= k < l.len() && #[trigger] l[k] == target && after == l.remove(k)
}

proof fn lemma_put_beside_within(
    pre: Seq<PaneId>,
    l: Seq<PaneId>,
    after: Seq<PaneId>,
    post: Seq<PaneId>,
    target: PaneId,
    new_id: PaneId,
    before: bool,
)
    requires
        put_beside(l, after, target, new_id, before),
    ensures
        put_beside(pre + l + post, pre + after + post, target, new_id, before),
{
    let k = choose|k: int|
        0 <= k < l.len() && #[trigger] l[k] == target && after == l.insert(
            if before {
                k
            } else {
                k + 1
            },
            new_id,
        );
    let at = if before { k } else { k + 1 };
    assert((pre + l + post)[pre.len() + k] == target);
    assert(pre + after + post =~= (pre + l + post).insert(pre.len() + at, new_id));
}

proof fn lemma_split_leaf(target: PaneId, dir: Dir, new_id: PaneId, before: bool)
    ensures
        wf(split_tree(Tree::Leaf(target), target, dir, new_id, before)),
        put_beside(
            seq![target],
            leaves(split_tree(Tree::Leaf(target), target, dir, new_id, before)),
            target,
            new_id,
            before,
        ),
{
    let t1 = split_tree(Tree::Leaf(target), target, dir, new_id, before);
    let l = seq![target];
    assert(l[0] == target);
    let kids = t1->kids;
    lemma_leaves_of_at(kids, 0);
    assert(kids.take(0) =~= Seq::empty());
    assert(kids.skip(1) =~= seq![kids[1]]);
    lemma_leaves_of_one(kids[1]);
    let fr = t1->fracs;
    assert(fr.drop_last() =~= seq![ONE / 2]);
    assert(seq![ONE / 2].drop_last() =~= Seq::<u64>::empty());
    reveal_with_fuel(total_share, 3);
    assert(total_share(fr) == ONE);
    assert(wf(kids[0]) && wf(kids[1]));
    if before {
        assert(leaves(t1) =~= l.insert(0, new_id));
    } else {
        assert(leaves(t1) =~= l.insert(1, new_id));
    }
}

proof fn lemma_split_sibling(kids: Seq<Tree>, i: int, target: PaneId, new_id: PaneId, before: bool)
    requires
        0 <= i < kids.len(),
        kids[i] == Tree::Leaf(target),
    ensures
        put_beside(
            leaves_of(kids),
            leaves_of(kids.insert(if before { i } else { i + 1 }, Tree::Leaf(new_id))),
            target,
            new_id,
            before,
        ),
{
    let at = if before { i } else { i + 1 };
    let pre = kids.take(i);
    let post = kids.skip(i + 1);
    let pair = if before {
        seq![Tree::Leaf(new_id), kids[i]]
    } else {
        seq![kids[i], Tree::Leaf(new_id)]
    };
    lemma_leaves_of_at(kids, i);
    assert(kids.insert(at, Tree::Leaf(new_id)) =~= pre + pair + post);
    lemma_leaves_of_concat(pre + pair, post);
    lemma_leaves_of_concat(pre, pair);
    lemma_leaves_of_concat(seq![pair[0]], seq![pair[1]]);
    assert(pair =~= seq![pair[0]] + seq![pair[1]]);
    lemma_leaves_of_one(pair[0]);
    lemma_leaves_of_one(pair[1]);
    let one = seq![target];
    assert(leaves(kids[i]) =~= one);
    assert(one[0] == target);
    assert(leaves_of(pair) =~= one.insert(if before { 0 } else { 1 }, new_id));
    assert(put_beside(one, leaves_of(pair), target, new_id, before));
    lemma_put_beside_within(
        leaves_of(pre),
        one,
        leaves_of(pair),
        leaves_of(post),
        target,
        new_id,
        before,
    );
}

/// The leaves of a split when one child changes.
proof fn lemma_leaves_of_update(kids: Seq<Tree>, j: int, kid: Tree)
    requires
        0 <= j < kids.len(),
    ensures
        leaves_of(kids.update(j, kid)) == leaves_of(kids.take(j)) + leaves(kid) + leaves_of(
            kids.skip(j + 1),
        ),
        leaves_of(kids) == leaves_of(kids.take(j)) + leaves(kids[j]) + leaves_of(kids.skip(j + 1)),
{
    let kids1 = kids.update(j, kid);
    lemma_leaves_of_at(kids, j);
    lemma_leaves_of_at(kids1, j);
    assert(kids1.take(j) =~= kids.take(j));
    assert(kids1.skip(j + 1) =~= kids.skip(j + 1));
}

/// Splitting keeps the tree well formed, and puts the new pane right beside
/// its target among the panes, whose order stays as it was.
pub proof fn law_split(t: Tree, target: PaneId, dir: Dir, new_id: PaneId, before: bool)
    requires
        wf(t),
        leaves(t).contains(target),
    ensures
        wf(split_tree(t, target, dir, new_id, before)),
        split_tree(t, target, dir, new_id, before) is Split,
        put_beside(
            leaves(t),
            leaves(split_tree(t, target, dir, new_id, before)),
            target,
            new_id,
            before,
        ),
    decreases t,
{
    let t1 = split_tree(t, target, dir, new_id, before);
    match t {
        Tree::Leaf(id) => {
            assert(leaves(t) =~= seq![id]);
            lemma_split_leaf(target, dir, new_id, before);
        },
        Tree::Split { dir: d, fracs, kids } => {
            let i = leaf_pos(kids, target);
            let j = holder_pos(kids, target);
            lemma_leaf_pos(kids, target);
            lemma_holder_pos(kids, target);
            lemma_leaves_of_contains(kids, target);
            let kids1 = t1->kids;
            if d == dir && i < kids.len() {
                let at = if before { i } else { i + 1 };
                lemma_total_share_halved(fracs, i);
                lemma_split_sibling(kids, i, target, new_id, before);
                assert forall|m: int| 0 <= m < kids1.len() implies wf(#[trigger] kids1[m]) by {
                    if m != at {
                        assert(kids1[m] == kids[if m < at { m } else { m - 1 }]);
                    }
                }
            } else {
                assert(0 <= j < kids.len());
                law_split(kids[j], target, dir, new_id, before);
                let kid1 = split_tree(kids[j], target, dir, new_id, before);
                lemma_leaves_of_update(kids, j, kid1);
                lemma_put_beside_within(
                    leaves_of(kids.take(j)),
                    leaves(kids[j]),
                    leaves(kid1),
                    leaves_of(kids.skip(j + 1)),
                    target,
                    new_id,
                    before,
                );
                assert forall|m: int| 0 <= m < kids1.len() implies wf(#[trigger] kids1[m]) by {
                    if m != j {
                        assert(kids1[m] == kids[m]);
                    }
                }
            }
        },
    }
}

/// Removing keeps the tree well formed, takes out one occurrence of the
/// target and leaves the other panes in their order.
pub proof fn law_remove(t: Tree, target: PaneId)
    requires
        wf(t),
        t is Split,
        leaves(t).contains(target),
    ensures
        wf(remove_tree(t, target)),
        taken_out(leaves(t), leaves(remove_tree(t, target)), target),
    decreases t,
{
    let t1 = remove_tree(t, target);
    let l = leaves(t);
    let kids = t->kids;
    let fracs = t->fracs;
    let i = leaf_pos(kids, target);
    let j = holder_pos(kids, target);
    lemma_leaf_pos(kids, target);
    lemma_holder_pos(kids, target);
    lemma_leaves_of_contains(kids, target);
    if i < kids.len() {
        let rest = kids.remove(i);
        lemma_total_share_remove(fracs, i);
        if total_share(fracs.remove(i)) > 0 {
            lemma_spread(fracs.remove(i), fracs[i]);
        }
        lemma_leaves_of_at(kids, i);
        let k = leaves_of(kids.take(i)).len() as int;
        assert(leaves(kids[i]) =~= seq![target]);
        assert(l[k] == target);
        assert(rest =~= kids.take(i) + kids.skip(i + 1));
        lemma_leaves_of_concat(kids.take(i), kids.skip(i + 1));
        assert(leaves_of(rest) =~= l.remove(k));
        assert forall|m: int| 0 <= m < rest.len() implies wf(#[trigger] rest[m]) by {
            assert(rest[m] == kids[if m < i { m } else { m + 1 }]);
        }
        if rest.len() == 1 {
            lemma_leaves_of_one(rest[0]);
            assert(rest =~= seq![rest[0]]);
            assert(wf(rest[0]));
        }
    } else {
        let kids1 = t1->kids;
        if kids[j] is Leaf {
            assert(leaves(kids[j])[0] == kids[j]->0);
            assert(kids[j] != Tree::Leaf(target));
        }
        law_remove(kids[j], target);
        let sub = leaves(kids[j]);
        let sub1 = leaves(kids1[j]);
        let k = choose|k: int|
            0 <= k < sub.len() && #[trigger] sub[k] == target && sub1 == sub.remove(k);
        lemma_leaves_of_at(kids, j);
        lemma_leaves_of_at(kids1, j);
        assert(kids1.take(j) =~= kids.take(j));
        assert(kids1.skip(j + 1) =~= kids.skip(j + 1));
        let pre = leaves_of(kids.take(j));
        assert(l[pre.len() + k] == target);
        assert(leaves(t1) =~= l.remove(pre.len() + k));
        assert forall|m: int| 0 <= m < kids1.len() implies wf(#[trigger] kids1[m]) by {
            if m != j {
                assert(kids1[m] == kids[m]);
            }
        }
    }
}

/// Closing the pane that a split added gives back the panes there were.
pub proof fn law_remove_undoes_split(t: Tree, target: PaneId, dir: Dir, new_id: PaneId, before: bool)
    requires
        wf(t),
        leaves(t).contains(target),
        !leaves(t).contains(new_id),
    ensures
        leaves(remove_tree(split_tree(t, target, dir, new_id, before), new_id)) == leaves(t),
{
    let t1 = split_tree(t, target, dir, new_id, before);
    law_split(t, target, dir, new_id, before);
    let l = leaves(t);
    let l1 = leaves(t1);
    let k = choose|k: int|
        0 <= k < l.len() && #[trigger] l[k] == target && l1 == l.insert(
            if before {
                k
            } else {
                k + 1
            },
            new_id,
        );
    let at = if before { k } else { k + 1 };
    assert(l1[at] == new_id);
    law_remove(t1, new_id);
    let m = choose|m: int|
        0 <= m < l1.len() && #[trigger] l1[m] == new_id && leaves(remove_tree(t1, new_id))
            == l1.remove(m);
    if m != at {
        assert(l1[m] == l[if m < at { m } else { m - 1 }]);
    }
    assert(l1.remove(at) =~= l);
}

/// The tree with the panes `a` and `b` in each other's place.
pub open spec fn swap_tree(t: Tree, a: PaneId, b: PaneId) -> Tree
    decreases t,
{
    match t {
        Tree::Leaf(id) => Tree::Leaf(swap_id(id, a, b)),
        Tree::Split { dir, fracs, kids } => Tree::Split {
            dir,
            fracs,
            kids: Seq::new(
                kids.len(),
                |i: int|
                    if 0 <= i < kids.len() {
                        swap_tree(kids[i], a, b)
                    } else {
                        Tree::Leaf(0)
                    },
            ),
        },
    }
}

pub open spec fn swap_id(id: PaneId, a: PaneId, b: PaneId) -> PaneId {
    if id == a {
        b
    } else if id == b {
        a
    } else {
        id
    }
}

fn swap_node(node: &mut Node, a: PaneId, b: PaneId)
    ensures
        final(node)@ == swap_tree(old(node)@, a, b),
    decreases *old(node), 0int,
{
    proof {
        lemma_node_view(*node);
    }
    let ghost t0 = node@;
    match node {
        Node::Leaf(id) => {
            if *id == a {
                *id = b;
            } else if *id == b {
                *id = a;
            }
        },
        Node::Split { dir: _, fracs: _, kids } => {
            swap_kids(kids, a, b);
            proof {
                lemma_node_view(*node);
                assert(node@->kids =~= swap_tree(t0, a, b)->kids);
            }
        },
    }
}

fn swap_kids(kids: &mut Vec<Node>, a: PaneId, b: PaneId)
    ensures
        final(kids)@.len() == old(kids)@.len(),
        forall|i: int|
            0 <= i < old(kids)@.len() ==> (#[trigger] final(kids)@[i])@ == swap_tree(
                old(kids)@[i]@,
                a,
                b,
            ),
    decreases old(kids)@, 1int,
{
    let n: usize = kids.len();
    let mut i: usize = 0;
    while i < n
        invariant
            i <= n == old(kids)@.len(),
            kids@.len() == n,
            forall|j: int|
                0 <= j < i ==> (#[trigger] kids@[j])@ == swap_tree(old(kids)@[j]@, a, b),
            forall|j: int| i <= j < n ==> #[trigger] kids@[j] == old(kids)@[j],
        decreases n - i,
    {
        assert(kids@[i as int] == old(kids)@[i as int]);
        swap_node(&mut kids[i], a, b);
        i += 1;
    }
}

/// Exchange two panes of the tree. Nothing changes unless both are there.
pub fn swap(root: &mut Node, a: PaneId, b: PaneId)
    ensures
        final(root)@ == (if leaves(old(root)@).contains(a) && leaves(old(root)@).contains(b) {
            swap_tree(old(root)@, a, b)
        } else {
            old(root)@
        }),
{
    if has_leaf(root, a) && has_leaf(root, b) {
        swap_node(root, a, b);
    }
}

/// Swapping touches nothing but the two names: sizes and shape stay, and each
/// place that showed one pane shows the other.
pub proof fn law_swap(t: Tree, a: PaneId, b: PaneId)
    ensures
        wf(t) ==> wf(swap_tree(t, a, b)),
        leaves(swap_tree(t, a, b)) == leaves(t).map_values(|id: PaneId| swap_id(id, a, b)),
    decreases t,
{
    let f = |id: PaneId| swap_id(id, a, b);
    match t {
        Tree::Leaf(id) => {
            assert(leaves(swap_tree(t, a, b)) =~= leaves(t).map_values(f));
        },
        Tree::Split { kids, fracs, .. } => {
            let kids1 = swap_tree(t, a, b)->kids;
            assert forall|i: int| 0 <= i < kids.len() implies (wf(kids[i]) ==> wf(
                #[trigger] kids1[i],
            )) && leaves(kids1[i]) == leaves(kids[i]).map_values(f) by {
                law_swap(kids[i], a, b);
            }
            lemma_map_leaves_of(kids, kids1, f);
        },
    }
}

proof fn lemma_map_leaves_of(kids: Seq<Tree>, kids1: Seq<Tree>, f: spec_fn(PaneId) -> PaneId)
    requires
        kids.len() == kids1.len(),
        forall|i: int|
            0 <= i < kids.len() ==> leaves(#[trigger] kids1[i]) == leaves(kids[i]).map_values(f),
    ensures
        leaves_of(kids1) == leaves_of(kids).map_values(f),
    decreases kids.len(),
{
    if kids.len() == 0 {
        assert(leaves_of(kids1) =~= leaves_of(kids).map_values(f));
    } else {
        lemma_map_leaves_of(kids.drop_last(), kids1.drop_last(), f);
        assert(kids1[kids.len() - 1] == kids1.last());
        assert(leaves_of(kids1) =~= leaves_of(kids).map_values(f));
    }
}

/// The tree after the pane `id` moves beside `target`.
pub open spec fn move_tree(t: Tree, id: PaneId, target: PaneId, dir: Dir, before: bool) -> Tree {
    split_tree(remove_tree(t, id), target, dir, id, before)
}

/// Whether the pane `id` can move beside `target`.
pub open spec fn can_move(t: Tree, id: PaneId, target: PaneId) -> bool {
    id != target && leaves(t).contains(id) && leaves(t).contains(target)
}

/// Take the pane `id` out of its place and put it beside `target`, before or
/// after it in direction `dir`. Returns false, changing nothing, unless both
/// are panes of the tree and differ.
pub fn move_pane(root: &mut Node, id: PaneId, target: PaneId, dir: Dir, before: bool) -> (r: bool)
    requires
        wf(old(root)@),
    ensures
        r == can_move(old(root)@, id, target),
        final(root)@ == (if r {
            move_tree(old(root)@, id, target, dir, before)
        } else {
            old(root)@
        }),
{
    if id == target || !has_leaf(root, id) || !has_leaf(root, target) {
        return false;
    }
    proof {
        law_move(root@, id, target, dir, before);
    }
    remove(root, id);
    split_beside(root, target, dir, id, before)
}

/// Moving keeps the tree well formed and every pane in it: the moved one ends
/// up right beside its target, the others keep their order.
pub proof fn law_move(t: Tree, id: PaneId, target: PaneId, dir: Dir, before: bool)
    requires
        wf(t),
        can_move(t, id, target),
    ensures
        t is Split,
        wf(remove_tree(t, id)),
        leaves(remove_tree(t, id)).contains(target),
        wf(move_tree(t, id, target, dir, before)),
        taken_out(leaves(t), leaves(remove_tree(t, id)), id),
        put_beside(
            leaves(remove_tree(t, id)),
            leaves(move_tree(t, id, target, dir, before)),
            target,
            id,
            before,
        ),
        leaves(move_tree(t, id, target, dir, before)).len() == leaves(t).len(),
{
    if t is Leaf {
        assert(leaves(t) =~= seq![t->0]);
    }
    law_remove(t, id);
    let l = leaves(t);
    let l1 = leaves(remove_tree(t, id));
    let k = choose|k: int| 0 <= k < l.len() && #[trigger] l[k] == id && l1 == l.remove(k);
    let m = choose|m: int| 0 <= m < l.len() && l[m] == target;
    assert(l1[if m < k { m } else { m - 1 }] == target);
    law_split(remove_tree(t, id), target, dir, id, before);
}

/// The value nearest to `v` between `lo` and `hi`.
pub open spec fn clamped(v: int, lo: int, hi: int) -> int {
    if v < lo {
        lo
    } else if v > hi {
        hi
    } else {
        v
    }
}

/// The shares after the divider behind child `index` moves by `delta`: the
/// two children beside it keep their sum, and each keeps `MIN_SHARE`.
pub open spec fn dragged(fracs: Seq<u64>, index: int, delta: int) -> Seq<u64> {
    let pair = fracs[index] + fracs[index + 1];
    let a = clamped(fracs[index] + delta, MIN_SHARE as int, pair - MIN_SHARE);
    fracs.update(index, a as u64).update(index + 1, (pair - a) as u64)
}

/// The tree after the divider at `path`, behind child `index`, moves by
/// `delta`. A path that leads to no such divider changes nothing.
pub open spec fn drag_tree(t: Tree, path: Seq<usize>, index: int, delta: int) -> Tree
    decreases path.len(),
{
    match t {
        Tree::Leaf(_) => t,
        Tree::Split { dir, fracs, kids } => if path.len() == 0 {
            if index + 1 < fracs.len() {
                Tree::Split { dir, fracs: dragged(fracs, index, delta), kids }
            } else {
                t
            }
        } else if path[0] < kids.len() {
            let i = path[0] as int;
            Tree::Split {
                dir,
                fracs,
                kids: kids.update(i, drag_tree(kids[i], path.drop_first(), index, delta)),
            }
        } else {
            t
        },
    }
}

/// Whether the two children beside the divider have room for `MIN_SHARE`
/// each.
pub open spec fn drag_room(t: Tree, path: Seq<usize>, index: int) -> bool
    decreases path.len(),
{
    match t {
        Tree::Leaf(_) => true,
        Tree::Split { fracs, kids, .. } => if path.len() == 0 {
            index + 1 < fracs.len() ==> fracs[index] + fracs[index + 1] >= 2 * MIN_SHARE
        } else if path[0] < kids.len() {
            drag_room(kids[path[0] as int], path.drop_first(), index)
        } else {
            true
        },
    }
}

/// Whether a drag of the divider at `path`/`index` can keep `MIN_SHARE` on
/// both sides of it.
pub fn has_drag_room(root: &Node, path: &[usize], index: usize) -> (r: bool)
    requires
        wf(root@),
    ensures
        r == drag_room(root@, path@, index as int),
{
    assert(path@.skip(0) =~= path@);
    drag_room_from(root, path, 0, index)
}

fn drag_room_from(node: &Node, path: &[usize], at: usize, index: usize) -> (r: bool)
    requires
        wf(node@),
        at <= path@.len(),
    ensures
        r == drag_room(node@, path@.skip(at as int), index as int),
    decreases path@.len() - at,
{
    proof {
        lemma_node_view(*node);
        lemma_shares_bound(node@);
    }
    let ghost rest = path@.skip(at as int);
    match node {
        Node::Leaf(_) => true,
        Node::Split { fracs, kids, .. } => {
            if at == path.len() {
                index >= fracs.len() || index + 1 >= fracs.len() || fracs[index] + fracs[index + 1]
                    >= 2 * MIN_SHARE
            } else {
                let i = path[at];
                assert(rest[0] == i);
                assert(rest.drop_first() =~= path@.skip(at + 1));
                if i < kids.len() {
                    assert(wf(node@->kids[i as int]));
                    drag_room_from(&kids[i], path, at + 1, index)
                } else {
                    true
                }
            }
        },
    }
}

/// Each share of a well-formed split is at most the whole.
proof fn lemma_shares_bound(t: Tree)
    requires
        wf(t),
    ensures
        t is Split ==> forall|i: int|
            0 <= i < t->fracs.len() ==> #[trigger] t->fracs[i] <= ONE,
        t is Split ==> forall|i: int|
            #![trigger t->fracs[i]]
            0 <= i && i + 1 < t->fracs.len() ==> t->fracs[i] + t->fracs[i + 1] <= ONE,
{
    if let Tree::Split { fracs, .. } = t {
        assert forall|i: int| 0 <= i < fracs.len() implies #[trigger] fracs[i] <= ONE by {
            lemma_total_share_take(fracs, i);
        }
        assert forall|i: int|
            #![trigger fracs[i]]
            0 <= i && i + 1 < fracs.len() implies fracs[i] + fracs[i + 1] <= ONE by {
            lemma_total_share_take(fracs, i);
            lemma_total_share_take(fracs, i + 1);
        }
    }
}

/// Drag the divider at `path`, behind child `index`, by `delta` shares of the
/// split's extent.
pub fn drag_divider(root: &mut Node, path: &[usize], index: usize, delta: i64)
    requires
        wf(old(root)@),
        drag_room(old(root)@, path@, index as int),
    ensures
        final(root)@ == drag_tree(old(root)@, path@, index as int, delta as int),
{
    assert(path@.skip(0) =~= path@);
    drag_from(root, path, 0, index, delta);
}

fn drag_from(node: &mut Node, path: &[usize], at: usize, index: usize, delta: i64)
    requires
        wf(old(node)@),
        at <= path@.len(),
        drag_room(old(node)@, path@.skip(at as int), index as int),
    ensures
        final(node)@ == drag_tree(
            old(node)@,
            path@.skip(at as int),
            index as int,
            delta as int,
        ),
    decreases path@.len() - at,
{
    proof {
        lemma_node_view(*node);
        lemma_shares_bound(node@);
    }
    let ghost t0 = node@;
    let ghost rest = path@.skip(at as int);
    match node {
        Node::Leaf(_) => {},
        Node::Split { dir: _, fracs, kids } => {
            if at == path.len() {
                if index < fracs.len() && index + 1 < fracs.len() {
                    let f = fracs[index];
                    let pair = f + fracs[index + 1];
                    let want = f as i128 + delta as i128;
                    let a: u64 = if want < MIN_SHARE as i128 {
                        MIN_SHARE
                    } else if want > (pair - MIN_SHARE) as i128 {
                        pair - MIN_SHARE
                    } else {
                        want as u64
                    };
                    fracs.set(index, a);
                    fracs.set(index + 1, pair - a);
                    proof {
                        lemma_node_view(*node);
                        assert(node@->kids =~= t0->kids);
                        assert(node@->fracs =~= dragged(t0->fracs, index as int, delta as int));
                    }
                }
            } else {
                let i = path[at];
                assert(rest[0] == i);
                assert(rest.drop_first() =~= path@.skip(at + 1));
                if i < kids.len() {
                    assert(wf(t0->kids[i as int]));
                    drag_from(&mut kids[i], path, at + 1, index, delta);
                    proof {
                        lemma_node_view(*node);
                        assert(node@->kids =~= drag_tree(
                            t0,
                            rest,
                            index as int,
                            delta as int,
                        )->kids);
                    }
                }
            }
        },
    }
}

proof fn lemma_total_share_update(fracs: Seq<u64>, i: int, f: u64)
    requires
        0 <= i < fracs.len(),
    ensures
        total_share(fracs.update(i, f)) == total_share(fracs) - fracs[i] + f,
    decreases fracs.len(),
{
    let out = fracs.update(i, f);
    if i == fracs.len() - 1 {
        assert(out.drop_last() =~= fracs.drop_last());
    } else {
        assert(out.drop_last() =~= fracs.drop_last().update(i, f));
        lemma_total_share_update(fracs.drop_last(), i, f);
    }
}

/// A drag moves no pane: the tree stays well formed with the same panes, and
/// the shares of each split keep their sum.
pub proof fn law_drag(t: Tree, path: Seq<usize>, index: int, delta: int)
    requires
        wf(t),
        0 <= index,
        drag_room(t, path, index),
    ensures
        wf(drag_tree(t, path, index, delta)),
        leaves(drag_tree(t, path, index, delta)) == leaves(t),
        t is Split ==> total_share(drag_tree(t, path, index, delta)->fracs) == total_share(
            t->fracs,
        ),
    decreases path.len(),
{
    if let Tree::Split { fracs, kids, .. } = t {
        lemma_shares_bound(t);
        if path.len() == 0 {
            if index + 1 < fracs.len() {
                let pair = fracs[index] + fracs[index + 1];
                let a = clamped(fracs[index] + delta, MIN_SHARE as int, pair - MIN_SHARE);
                lemma_total_share_update(fracs, index, a as u64);
                lemma_total_share_update(
                    fracs.update(index, a as u64),
                    index + 1,
                    (pair - a) as u64,
                );
            }
        } else if path[0] < kids.len() {
            let i = path[0] as int;
            law_drag(kids[i], path.drop_first(), index, delta);
            let kid1 = drag_tree(kids[i], path.drop_first(), index, delta);
            lemma_leaves_of_update(kids, i, kid1);
            let kids1 = kids.update(i, kid1);
            assert forall|m: int| 0 <= m < kids1.len() implies wf(#[trigger] kids1[m]) by {
                if m != i {
                    assert(kids1[m] == kids[m]);
                }
            }
        }
    }
}

/// The two sides of a dragged divider keep their sum, and neither falls under
/// the minimum.
pub proof fn law_drag_minimum(fracs: Seq<u64>, index: int, delta: int)
    requires
        0 <= index,
        index + 1 < fracs.len(),
        2 * MIN_SHARE <= fracs[index] + fracs[index + 1] <= ONE,
    ensures
        dragged(fracs, index, delta).len() == fracs.len(),
        dragged(fracs, index, delta)[index] >= MIN_SHARE,
        dragged(fracs, index, delta)[index + 1] >= MIN_SHARE,
        dragged(fracs, index, delta)[index] + dragged(fracs, index, delta)[index + 1]
            == fracs[index] + fracs[index + 1],
        forall|j: int|
            0 <= j < fracs.len() && j != index && j != index + 1 ==> #[trigger] dragged(
                fracs,
                index,
                delta,
            )[j] == fracs[j],
{
}

/// The panes below the first `n` children, as a sequence of names.
proof fn lemma_panes_upto_names(t: Tree, a: Area, n: int)
    requires
        t is Split,
        0 <= n <= t->kids.len(),
        forall|i: int, b: Area|
            0 <= i < t->kids.len() ==> names(#[trigger] panes_of(t->kids[i], b)) == leaves(
                t->kids[i],
            ),
    ensures
        names(panes_upto(t, a, n)) == leaves_of(t->kids.take(n)),
    decreases n,
{
    let kids = t->kids;
    if n == 0 {
        assert(kids.take(0) =~= Seq::empty());
        assert(names(panes_upto(t, a, 0)) =~= Seq::empty());
    } else {
        lemma_panes_upto_names(t, a, n - 1);
        assert(kids.take(n).drop_last() =~= kids.take(n - 1));
        assert(kids.take(n).last() == kids[n - 1]);
        let rest = panes_of(kids[n - 1], kid_area(a, t->dir, t->fracs, n - 1));
        assert(names(panes_upto(t, a, n)) =~= names(panes_upto(t, a, n - 1)) + names(rest));
    }
}

/// The names of placed panes.
pub open spec fn names(panes: Seq<(PaneId, Area)>) -> Seq<PaneId> {
    panes.map_values(|p: (PaneId, Area)| p.0)
}

/// A layout shows each pane of the tree once, in drawing order.
pub proof fn law_layout_order(t: Tree, a: Area)
    ensures
        names(panes_of(t, a)) == leaves(t),
    decreases t,
{
    match t {
        Tree::Leaf(id) => {
            assert(names(panes_of(t, a)) =~= leaves(t));
        },
        Tree::Split { kids, .. } => {
            assert forall|i: int, b: Area| 0 <= i < kids.len() implies names(
                #[trigger] panes_of(t->kids[i], b),
            ) == leaves(t->kids[i]) by {
                law_layout_order(kids[i], b);
            }
            lemma_panes_upto_names(t, a, kids.len() as int);
            assert(kids.take(kids.len() as int) =~= kids);
        },
    }
}

/// Which child a pane of a split belongs to.
proof fn lemma_panes_upto_at(t: Tree, a: Area, n: int, k: int) -> (r: (int, int))
    requires
        t is Split,
        0 <= n <= t->kids.len(),
        0 <= k < panes_upto(t, a, n).len(),
    ensures
        0 <= r.0 < n,
        0 <= r.1 < panes_of(t->kids[r.0], kid_area(a, t->dir, t->fracs, r.0)).len(),
        panes_upto(t, a, n)[k] == panes_of(
            t->kids[r.0],
            kid_area(a, t->dir, t->fracs, r.0),
        )[r.1],
        k == panes_upto(t, a, r.0).len() + r.1,
    decreases n,
{
    let before = panes_upto(t, a, n - 1);
    if k < before.len() {
        lemma_panes_upto_at(t, a, n - 1, k)
    } else {
        (n - 1, k - before.len())
    }
}

/// A point in the area of a child is in the area of the split.
proof fn lemma_kid_inside(a: Area, dir: Dir, fracs: Seq<u64>, i: int, px: int, py: int)
    requires
        0 <= i < fracs.len(),
        total_share(fracs) <= ONE,
        area_has(kid_area(a, dir, fracs, i), px, py),
    ensures
        area_has(a, px, py),
{
    lemma_offset(a, dir, fracs, i);
    let r = room(a, dir, fracs.len() as int);
    if r == 0 {
        assert(extent(a, dir, fracs, i) == 0) by (nonlinear_arith)
            requires
                r == 0,
                extent(a, dir, fracs, i) == r * fracs[i] / ONE as int,
        ;
    }
}

/// Children start where the ones before them have ended.
proof fn lemma_offset_step(a: Area, dir: Dir, fracs: Seq<u64>, i: int, j: int)
    requires
        0 <= i < j <= fracs.len(),
        total_share(fracs) <= ONE,
    ensures
        offset(a, dir, fracs, i) + extent(a, dir, fracs, i) + GAP <= offset(a, dir, fracs, j),
    decreases j,
{
    if j > i + 1 {
        lemma_offset_step(a, dir, fracs, i, j - 1);
        lemma_offset(a, dir, fracs, j - 1);
    }
}

/// Every point of a pane lies in the area that is laid out.
pub proof fn law_panes_inside(t: Tree, a: Area, k: int, px: int, py: int)
    requires
        wf(t),
        0 <= k < panes_of(t, a).len(),
        area_has(panes_of(t, a)[k].1, px, py),
    ensures
        area_has(a, px, py),
    decreases t,
{
    if let Tree::Split { dir, fracs, kids } = t {
        let (i, m) = lemma_panes_upto_at(t, a, kids.len() as int, k);
        let b = kid_area(a, dir, fracs, i);
        law_panes_inside(kids[i], b, m, px, py);
        lemma_kid_inside(a, dir, fracs, i, px, py);
    }
}

/// No point lies in two panes.
pub proof fn law_panes_disjoint(t: Tree, a: Area, k: int, l: int, px: int, py: int)
    requires
        wf(t),
        0 <= k < l < panes_of(t, a).len(),
    ensures
        !(area_has(panes_of(t, a)[k].1, px, py) && area_has(panes_of(t, a)[l].1, px, py)),
    decreases t,
{
    if let Tree::Split { dir, fracs, kids } = t {
        let n = kids.len() as int;
        let (i, m) = lemma_panes_upto_at(t, a, n, k);
        let (j, o) = lemma_panes_upto_at(t, a, n, l);
        let bi = kid_area(a, dir, fracs, i);
        let bj = kid_area(a, dir, fracs, j);
        if area_has(panes_of(t, a)[k].1, px, py) && area_has(panes_of(t, a)[l].1, px, py) {
            if i == j {
                law_panes_disjoint(kids[i], bi, m, o, px, py);
            } else {
                law_panes_inside(kids[i], bi, m, px, py);
                law_panes_inside(kids[j], bj, o, px, py);
                if i < j {
                    lemma_offset_step(a, dir, fracs, i, j);
                } else {
                    lemma_offset_step(a, dir, fracs, j, i);
                }
            }
        }
    }
}

/// A rectangle whose edges and middle are in the range of `i64`.
pub open spec fn rect_ok(a: Area) -> bool {
    &&& 0 <= a.w <= MAX_EXTENT
    &&& 0 <= a.h <= MAX_EXTENT
    &&& -COORD_BOUND <= a.x <= COORD_BOUND
    &&& -COORD_BOUND <= a.y <= COORD_BOUND
}

pub open spec fn rects_ok(panes: Seq<(PaneId, Area)>) -> bool {
    forall|i: int| 0 <= i < panes.len() ==> rect_ok((#[trigger] panes[i]).1)
}

proof fn lemma_rects_ok(t: Tree, a: Area)
    requires
        wf(t),
        area_fits(a, leaves(t).len() as int),
    ensures
        rects_ok(panes_of(t, a)),
    decreases t,
{
    if let Tree::Split { dir, fracs, kids } = t {
        assert forall|k: int| 0 <= k < panes_of(t, a).len() implies rect_ok(
            (#[trigger] panes_of(t, a)[k]).1,
        ) by {
            let (i, m) = lemma_panes_upto_at(t, a, kids.len() as int, k);
            lemma_kid_fits(t, a, i);
            lemma_rects_ok(kids[i], kid_area(a, dir, fracs, i));
        }
    }
}

/// The area of the first pane called `id`.
pub open spec fn area_of(panes: Seq<(PaneId, Area)>, id: PaneId) -> Option<Area>
    decreases panes.len(),
{
    if panes.len() == 0 {
        None
    } else if panes[0].0 == id {
        Some(panes[0].1)
    } else {
        area_of(panes.drop_first(), id)
    }
}

proof fn lemma_area_of_skip(panes: Seq<(PaneId, Area)>, id: PaneId, i: int)
    requires
        0 <= i <= panes.len(),
        forall|j: int| 0 <= j < i ==> (#[trigger] panes[j]).0 != id,
    ensures
        area_of(panes, id) == area_of(panes.skip(i), id),
    decreases i,
{
    if i == 0 {
        assert(panes.skip(0) =~= panes);
    } else {
        lemma_area_of_skip(panes, id, i - 1);
        assert(panes.skip(i - 1).drop_first() =~= panes.skip(i));
        assert(panes.skip(i - 1)[0] == panes[i - 1]);
    }
}

impl Layout {
    /// The rectangle of a pane on show.
    pub fn rect_of(&self, id: PaneId) -> (r: Option<RectF>)
        ensures
            match r {
                Some(rect) => area_of(placed(self.panes@), id) == Some(rect@),
                None => area_of(placed(self.panes@), id) is None,
            },
            r is Some ==> rects_ok(placed(self.panes@)) ==> rect_ok(r->0@),
    {
        let ghost all = placed(self.panes@);
        let mut i: usize = 0;
        while i < self.panes.len()
            invariant
                i <= self.panes.len(),
                all == placed(self.panes@),
                forall|j: int| 0 <= j < i ==> (#[trigger] all[j]).0 != id,
            decreases self.panes.len() - i,
        {
            let p = self.panes[i];
            assert(all[i as int] == (p.0, p.1@));
            if p.0 == id {
                proof {
                    lemma_area_of_skip(all, id, i as int);
                    assert(all.skip(i as int)[0] == all[i as int]);
                }
                return Some(p.1);
            }
            i += 1;
        }
        proof {
            lemma_area_of_skip(all, id, all.len() as int);
        }
        None
    }
}

pub open spec fn middle(a: Area) -> (int, int) {
    (a.x + a.w / 2, a.y + a.h / 2)
}

/// Whether the middle of `r` lies beyond the edge of `from` on the side that
/// `dx`, or else `dy`, points to; a pixel of overlap is allowed.
pub open spec fn beyond(from: Area, r: Area, dx: int, dy: int) -> bool {
    let (cx, cy) = middle(r);
    if dx > 0 {
        cx > from.x + from.w - DIP
    } else if dx < 0 {
        cx < from.x + DIP
    } else if dy > 0 {
        cy > from.y + from.h - DIP
    } else {
        cy < from.y + DIP
    }
}

/// The square of the distance between two middles.
pub open spec fn dist2(a: Area, b: Area) -> int {
    let (ax, ay) = middle(a);
    let (bx, by) = middle(b);
    (bx - ax) * (bx - ax) + (by - ay) * (by - ay)
}

/// Whether the pane `i` can be reached from the pane `from` that way.
pub open spec fn reachable(
    panes: Seq<(PaneId, Area)>,
    from: PaneId,
    area: Area,
    dx: int,
    dy: int,
    i: int,
) -> bool {
    0 <= i < panes.len() && panes[i].0 != from && beyond(area, panes[i].1, dx, dy)
}

/// Whether the pane `i` is the nearest one that way; the first of several at
/// the same distance.
pub open spec fn nearest(
    panes: Seq<(PaneId, Area)>,
    from: PaneId,
    area: Area,
    dx: int,
    dy: int,
    i: int,
) -> bool {
    &&& reachable(panes, from, area, dx, dy, i)
    &&& forall|j: int| #[trigger]
        reachable(panes, from, area, dx, dy, j) ==> {
            &&& dist2(area, panes[i].1) <= dist2(area, panes[j].1)
            &&& j < i ==> dist2(area, panes[i].1) < dist2(area, panes[j].1)
        }
}

/// What is found beside the pane `from`: nothing where it is not on show or
/// no pane lies that way, else the nearest.
pub open spec fn is_neighbor(
    panes: Seq<(PaneId, Area)>,
    from: PaneId,
    dx: int,
    dy: int,
    r: Option<PaneId>,
) -> bool {
    match area_of(panes, from) {
        None => r is None,
        Some(a) => match r {
            None => forall|i: int| !#[trigger] reachable(panes, from, a, dx, dy, i),
            Some(id) => exists|i: int| #[trigger]
                nearest(panes, from, a, dx, dy, i) && panes[i].0 == id,
        },
    }
}

fn is_beyond(fr: &RectF, r: &RectF, dx: i32, dy: i32) -> (b: bool)
    requires
        rect_ok(fr@),
        rect_ok(r@),
    ensures
        b == beyond(fr@, r@, dx as int, dy as int),
{
    let (cx, cy) = r.center();
    if dx > 0 {
        cx > fr.x + fr.w - DIP
    } else if dx < 0 {
        cx < fr.x + DIP
    } else if dy > 0 {
        cy > fr.y + fr.h - DIP
    } else {
        cy < fr.y + DIP
    }
}

fn dist(fr: &RectF, r: &RectF) -> (d: i128)
    requires
        rect_ok(fr@),
        rect_ok(r@),
    ensures
        d == dist2(fr@, r@),
{
    let (ax, ay) = fr.center();
    let (bx, by) = r.center();
    let x: i128 = bx as i128 - ax as i128;
    let y: i128 = by as i128 - ay as i128;
    assert(0 <= x * x <= 0x1000_0000_0000_0000_0000_0000_0000_0000 && 0 <= y * y
        <= 0x1000_0000_0000_0000_0000_0000_0000_0000) by (nonlinear_arith)
        requires
            -0x2000_0002_0000_0000 <= x <= 0x2000_0002_0000_0000,
            -0x2000_0002_0000_0000 <= y <= 0x2000_0002_0000_0000,
    ;
    x * x + y * y
}

/// The nearest pane to the right (`dx > 0`), left (`dx < 0`), below
/// (`dy > 0`) or above of `from`, by geometry.
pub fn neighbor(lay: &Layout, from: PaneId, dx: i32, dy: i32) -> (r: Option<PaneId>)
    requires
        rects_ok(placed(lay.panes@)),
    ensures
        is_neighbor(placed(lay.panes@), from, dx as int, dy as int, r),
{
    let ghost panes = placed(lay.panes@);
    let fr = match lay.rect_of(from) {
        Some(fr) => fr,
        None => {
            return None;
        },
    };
    let ghost a = fr@;
    let mut best: Option<(usize, i128)> = None;
    let mut i: usize = 0;
    while i < lay.panes.len()
        invariant
            i <= lay.panes.len(),
            panes == placed(lay.panes@),
            rects_ok(panes),
            a == fr@,
            rect_ok(a),
            match best {
                None => forall|j: int|
                    j < i ==> !#[trigger] reachable(panes, from, a, dx as int, dy as int, j),
                Some((b, d)) => {
                    &&& b < i
                    &&& d == dist2(a, panes[b as int].1)
                    &&& reachable(panes, from, a, dx as int, dy as int, b as int)
                    &&& forall|j: int|
                        j < i && #[trigger] reachable(panes, from, a, dx as int, dy as int, j)
                            ==> {
                            &&& d <= dist2(a, panes[j].1)
                            &&& j < b ==> d < dist2(a, panes[j].1)
                        }
                },
            },
        decreases lay.panes.len() - i,
    {
        let p = lay.panes[i];
        assert(panes[i as int] == (p.0, p.1@));
        assert(rect_ok(panes[i as int].1));
        if p.0 != from && is_beyond(&fr, &p.1, dx, dy) {
            assert(reachable(panes, from, a, dx as int, dy as int, i as int));
            let d: i128 = dist(&fr, &p.1);
            match best {
                Some((_, least)) => {
                    if d < least {
                        best = Some((i, d));
                    }
                },
                None => {
                    best = Some((i, d));
                },
            }
        }
        i += 1;
    }
    match best {
        Some((b, _)) => {
            let id: PaneId = lay.panes[b].0;
            proof {
                assert(panes[b as int] == (lay.panes@[b as int].0, lay.panes@[b as int].1@));
                assert(area_of(panes, from) == Some(a));
                assert(panes[b as int].0 == id && nearest(
                    panes,
                    from,
                    a,
                    dx as int,
                    dy as int,
                    b as int,
                ));
                assert(exists|i: int| #[trigger]
                    nearest(panes, from, a, dx as int, dy as int, i) && panes[i].0 == id);
                assert(area_of(panes, from)->0 == a);
                assert(is_neighbor(panes, from, dx as int, dy as int, Some(id)));
            }
            Some(id)
        },
        None => {
            assert forall|j: int| !#[trigger] reachable(
                panes,
                from,
                a,
                dx as int,
                dy as int,
                j,
            ) by {
                assert(j < i ==> !reachable(panes, from, a, dx as int, dy as int, j));
                assert(panes.len() == lay.panes@.len());
            }
            assert(area_of(panes, from) == Some(a));
            assert(is_neighbor(panes, from, dx as int, dy as int, None));
            None
        },
    }
}

/// The area of the node at `path`, if the path leads to one.
pub open spec fn area_at(t: Tree, a: Area, path: Seq<usize>) -> Option<Area>
    decreases path.len(),
{
    if path.len() == 0 {
        Some(a)
    } else {
        match t {
            Tree::Leaf(_) => None,
            Tree::Split { dir, fracs, kids } => {
                let i = path[0] as int;
                if i < kids.len() {
                    area_at(kids[i], kid_area(a, dir, fracs, i), path.drop_first())
                } else {
                    None
                }
            },
        }
    }
}

fn rect_at(node: &Node, area: RectF, path: &[usize], at: usize) -> (r: Option<RectF>)
    requires
        wf(node@),
        area_fits(area@, leaves(node@).len() as int),
        leaves(node@).len() <= MAX_PANES,
        at <= path@.len(),
    ensures
        match r {
            Some(b) => area_at(node@, area@, path@.skip(at as int)) == Some(b@),
            None => area_at(node@, area@, path@.skip(at as int)) is None,
        },
        r is Some ==> 0 <= r->0.w && 0 <= r->0.h,
    decreases path@.len() - at,
{
    if at == path.len() {
        return Some(area);
    }
    proof {
        lemma_node_view(*node);
    }
    let ghost t = node@;
    let ghost rest = path@.skip(at as int);
    match node {
        Node::Leaf(_) => None,
        Node::Split { dir, fracs, kids } => {
            let k = path[at];
            assert(rest[0] == k);
            assert(rest.drop_first() =~= path@.skip(at + 1));
            let n: usize = kids.len();
            if k >= n {
                return None;
            }
            proof {
                lemma_kid_fits(t, area@, 0);
            }
            let total: i64 = shared_room(&area, *dir, n);
            let mut pos: i64 = match dir {
                Dir::Row => area.x,
                Dir::Col => area.y,
            };
            let ghost base = pos as int;
            let mut i: usize = 0;
            while i < k
                invariant
                    i <= k < n == kids.len(),
                    t == (Tree::Split { dir: *dir, fracs: fracs@, kids: t->kids }),
                    same_trees(t->kids, kids@),
                    wf(t),
                    area_fits(area@, leaves(t).len() as int),
                    total == room(area@, *dir, n as int),
                    base == (match dir {
                        Dir::Row => area.x,
                        Dir::Col => area.y,
                    }),
                    pos == base + offset(area@, *dir, fracs@, i as int),
                decreases k - i,
            {
                proof {
                    lemma_kid_fits(t, area@, i as int);
                    lemma_kid_fits(t, area@, i + 1);
                }
                pos = pos + share_of(total, fracs[i]) + GAP;
                i += 1;
            }
            proof {
                lemma_kid_fits(t, area@, k as int);
                lemma_leaves_room(t, k as int);
                assert(wf(t->kids[k as int]));
            }
            let r = cut_strip(&area, *dir, pos, share_of(total, fracs[k]));
            assert(r@ == kid_area(area@, *dir, fracs@, k as int));
            rect_at(&kids[k], r, path, at + 1)
        },
    }
}

/// Extent of the split at `path` along `dir`, at least one pixel; that of the
/// whole area where the path leads nowhere.
pub fn split_extent(root: &Node, path: &[usize], area: RectF, dir: Dir) -> (r: i64)
    requires
        wf(root@),
        area_ok(area@),
        leaves(root@).len() <= MAX_PANES,
    ensures
        ({
            let at = match area_at(root@, area@, path@) {
                Some(b) => b,
                None => area@,
            };
            r == if along(at, dir) < DIP {
                DIP as int
            } else {
                along(at, dir)
            }
        }),
        r > 0,
{
    assert(path@.skip(0) =~= path@);
    let rect = match rect_at(root, area, path, 0) {
        Some(r) => r,
        None => area,
    };
    let e: i64 = match dir {
        Dir::Row => rect.w,
        Dir::Col => rect.h,
    };
    if e < DIP {
        DIP
    } else {
        e
    }
}

/// What is found beside the pane `from`.
pub open spec fn neighbor_of(
    panes: Seq<(PaneId, Area)>,
    from: PaneId,
    dx: int,
    dy: int,
) -> Option<PaneId> {
    choose|r: Option<PaneId>| is_neighbor(panes, from, dx, dy, r)
}

/// Only one thing is found there, and it is on show.
pub proof fn lemma_neighbor_of(
    panes: Seq<(PaneId, Area)>,
    from: PaneId,
    dx: int,
    dy: int,
    r: Option<PaneId>,
)
    requires
        is_neighbor(panes, from, dx, dy, r),
    ensures
        neighbor_of(panes, from, dx, dy) == r,
        r matches Some(id) ==> names(panes).contains(id),
{
    let q = neighbor_of(panes, from, dx, dy);
    assert(is_neighbor(panes, from, dx, dy, q));
    if let Some(a) = area_of(panes, from) {
        if let Some(id) = r {
            let i = choose|i: int| #[trigger]
                nearest(panes, from, a, dx, dy, i) && panes[i].0 == id;
            assert(nearest(panes, from, a, dx, dy, i) && panes[i].0 == id);
            assert(names(panes)[i] == id);
            assert(reachable(panes, from, a, dx, dy, i));
            if let Some(other) = q {
                let j = choose|j: int| #[trigger]
                    nearest(panes, from, a, dx, dy, j) && panes[j].0 == other;
                assert(nearest(panes, from, a, dx, dy, j) && panes[j].0 == other);
                assert(reachable(panes, from, a, dx, dy, j));
                assert(i == j);
            }
        } else if let Some(other) = q {
            let j = choose|j: int| #[trigger]
                nearest(panes, from, a, dx, dy, j) && panes[j].0 == other;
            assert(reachable(panes, from, a, dx, dy, j));
        }
    }
}

/// Whether the shares of every split make up the whole.
pub open spec fn full(t: Tree) -> bool
    decreases t,
{
    match t {
        Tree::Leaf(_) => true,
        Tree::Split { fracs, kids, .. } => {
            &&& total_share(fracs) == ONE
            &&& forall|i: int| 0 <= i < kids.len() ==> full(#[trigger] kids[i])
        },
    }
}

/// Whether every pane has a share.
pub open spec fn shared_out(t: Tree) -> bool
    decreases t,
{
    match t {
        Tree::Leaf(_) => true,
        Tree::Split { fracs, kids, .. } => {
            &&& forall|i: int| 0 <= i < fracs.len() ==> #[trigger] fracs[i] > 0
            &&& forall|i: int| 0 <= i < kids.len() ==> shared_out(#[trigger] kids[i])
        },
    }
}

/// Splitting a pane leaves nothing of the room over.
pub proof fn law_split_keeps_full(
    t: Tree,
    target: PaneId,
    dir: Dir,
    new_id: PaneId,
    before: bool,
)
    requires
        wf(t),
        full(t),
    ensures
        full(split_tree(t, target, dir, new_id, before)),
    decreases t,
{
    let t1 = split_tree(t, target, dir, new_id, before);
    match t {
        Tree::Leaf(id) => {
            if id == target {
                let fr = t1->fracs;
                assert(fr.drop_last() =~= seq![ONE / 2]);
                assert(seq![ONE / 2].drop_last() =~= Seq::<u64>::empty());
                reveal_with_fuel(total_share, 3);
                assert(full(t1->kids[0]) && full(t1->kids[1]));
            }
        },
        Tree::Split { dir: d, fracs, kids } => {
            let i = leaf_pos(kids, target);
            let j = holder_pos(kids, target);
            lemma_leaf_pos(kids, target);
            lemma_holder_pos(kids, target);
            let kids1 = t1->kids;
            if d == dir && i < kids.len() {
                let at = if before { i } else { i + 1 };
                lemma_total_share_halved(fracs, i);
                assert forall|m: int| 0 <= m < kids1.len() implies full(#[trigger] kids1[m]) by {
                    if m != at {
                        assert(kids1[m] == kids[if m < at { m } else { m - 1 }]);
                    }
                }
            } else if j < kids.len() {
                law_split_keeps_full(kids[j], target, dir, new_id, before);
                assert forall|m: int| 0 <= m < kids1.len() implies full(#[trigger] kids1[m]) by {
                    if m != j {
                        assert(kids1[m] == kids[m]);
                    }
                }
            }
        },
    }
}

/// The room of a pane that is closed goes to the others: nothing is left over.
pub proof fn law_remove_keeps_full(t: Tree, target: PaneId)
    requires
        wf(t),
        full(t),
        shared_out(t),
    ensures
        full(remove_tree(t, target)),
    decreases t,
{
    let t1 = remove_tree(t, target);
    if let Tree::Split { dir, fracs, kids } = t {
        let i = leaf_pos(kids, target);
        let j = holder_pos(kids, target);
        lemma_leaf_pos(kids, target);
        lemma_holder_pos(kids, target);
        if i < kids.len() {
            let rest = kids.remove(i);
            let left = fracs.remove(i);
            assert forall|m: int| 0 <= m < rest.len() implies full(#[trigger] rest[m]) by {
                assert(rest[m] == kids[if m < i { m } else { m + 1 }]);
            }
            if rest.len() > 1 {
                lemma_total_share_remove(fracs, i);
                assert(left[0] == fracs[if 0 < i { 0 } else { 1 }]);
                lemma_total_share_take(left, 0);
                assert(total_share(left) > 0);
                lemma_spread(left, fracs[i]);
            } else {
                assert(full(rest[0]));
            }
        } else if j < kids.len() {
            law_remove_keeps_full(kids[j], target);
            let kids1 = t1->kids;
            assert forall|m: int| 0 <= m < kids1.len() implies full(#[trigger] kids1[m]) by {
                if m != j {
                    assert(kids1[m] == kids[m]);
                }
            }
        }
    }
}

/// Two panes that change places change nothing of the room.
pub proof fn law_swap_keeps_full(t: Tree, a: PaneId, b: PaneId)
    requires
        full(t),
    ensures
        full(swap_tree(t, a, b)),
    decreases t,
{
    if let Tree::Split { kids, .. } = t {
        let kids1 = swap_tree(t, a, b)->kids;
        assert forall|i: int| 0 <= i < kids1.len() implies full(#[trigger] kids1[i]) by {
            law_swap_keeps_full(kids[i], a, b);
        }
    }
}

/// Moving a pane leaves nothing of the room over.
pub proof fn law_move_keeps_full(t: Tree, id: PaneId, target: PaneId, dir: Dir, before: bool)
    requires
        wf(t),
        full(t),
        shared_out(t),
        can_move(t, id, target),
    ensures
        full(move_tree(t, id, target, dir, before)),
{
    law_move(t, id, target, dir, before);
    law_remove_keeps_full(t, id);
    law_split_keeps_full(remove_tree(t, id), target, dir, id, before);
}

/// Dragging a divider leaves nothing of the room over.
pub proof fn law_drag_keeps_full(t: Tree, path: Seq<usize>, index: int, delta: int)
    requires
        wf(t),
        full(t),
        0 <= index,
        drag_room(t, path, index),
    ensures
        full(drag_tree(t, path, index, delta)),
    decreases path.len(),
{
    law_drag(t, path, index, delta);
    if let Tree::Split { fracs, kids, .. } = t {
        if path.len() > 0 && path[0] < kids.len() {
            let i = path[0] as int;
            law_drag_keeps_full(kids[i], path.drop_first(), index, delta);
            let kids1 = drag_tree(t, path, index, delta)->kids;
            assert forall|m: int| 0 <= m < kids1.len() implies full(#[trigger] kids1[m]) by {
                if m != i {
                    assert(kids1[m] == kids[m]);
                }
            }
        }
    }
}

/// A pane found to the right, left, below or above is another pane, and its
/// middle lies on that side of the middle of the pane that it is found from.
pub proof fn law_neighbor_side(
    panes: Seq<(PaneId, Area)>,
    from: PaneId,
    a: Area,
    dx: int,
    dy: int,
    id: PaneId,
)
    requires
        area_of(panes, from) == Some(a),
        a.w >= 2 * DIP,
        a.h >= 2 * DIP,
        is_neighbor(panes, from, dx, dy, Some(id)),
    ensures
        id != from,
        exists|i: int| #![trigger panes[i]]
            0 <= i < panes.len() && panes[i].0 == id && {
                let r = panes[i].1;
                let (x, y) = (r.x + r.w / 2 - (a.x + a.w / 2), r.y + r.h / 2 - (a.y + a.h / 2));
                &&& dx > 0 ==> x > 0
                &&& dx < 0 ==> x < 0
                &&& dx == 0 && dy > 0 ==> y > 0
                &&& dx == 0 && dy <= 0 ==> y < 0
            },
{
    let i = choose|i: int| #[trigger] nearest(panes, from, a, dx, dy, i) && panes[i].0 == id;
    assert(reachable(panes, from, a, dx, dy, i));
    assert(panes[i].0 == id);
}

/// Where some other pane lies wholly on the side that is asked for, a pane is
/// found there, and its middle is no farther than that of any such pane.
pub proof fn law_neighbor_nearest(
    panes: Seq<(PaneId, Area)>,
    from: PaneId,
    a: Area,
    dx: int,
    dy: int,
    r: Option<PaneId>,
    k: int,
)
    requires
        area_of(panes, from) == Some(a),
        is_neighbor(panes, from, dx, dy, r),
        0 <= k < panes.len(),
        panes[k].0 != from,
        panes[k].1.w >= 0,
        panes[k].1.h >= 0,
        ({
            let b = panes[k].1;
            ||| dx > 0 && b.x >= a.x + a.w
            ||| dx < 0 && b.x + b.w <= a.x
            ||| dx == 0 && dy > 0 && b.y >= a.y + a.h
            ||| dx == 0 && dy < 0 && b.y + b.h <= a.y
        }),
    ensures
        r is Some,
        exists|i: int| #![trigger panes[i]]
            0 <= i < panes.len() && panes[i].0 == r->0 && {
                let (b, c) = (panes[k].1, panes[i].1);
                let (mx, my) = (a.x + a.w / 2, a.y + a.h / 2);
                let (bx, by) = (b.x + b.w / 2 - mx, b.y + b.h / 2 - my);
                let (cx, cy) = (c.x + c.w / 2 - mx, c.y + c.h / 2 - my);
                cx * cx + cy * cy <= bx * bx + by * by
            },
{
    assert(reachable(panes, from, a, dx, dy, k));
    match r {
        None => {
            assert(is_neighbor(panes, from, dx, dy, None::<PaneId>));
            assert(area_of(panes, from)->0 == a);
            assert(!reachable(panes, from, a, dx, dy, k));
        },
        Some(id) => {
            let i = choose|i: int| #[trigger] nearest(panes, from, a, dx, dy, i) && panes[i].0 == id;
            assert(reachable(panes, from, a, dx, dy, i));
            assert(panes[i].0 == id);
        },
    }
}

/// Of two panes side by side or stacked, each finds the other across the edge
/// between them, and nothing on the far side.
pub proof fn law_neighbors_mutual(p: PaneId, a: Area, q: PaneId, b: Area, dir: Dir)
    requires
        p != q,
        a.w >= 2 * DIP,
        a.h >= 2 * DIP,
        b.w >= 2 * DIP,
        b.h >= 2 * DIP,
        match dir {
            Dir::Row => b.x >= a.x + a.w,
            Dir::Col => b.y >= a.y + a.h,
        },
    ensures
        ({
            let panes = seq![(p, a), (q, b)];
            let (dx, dy) = match dir {
                Dir::Row => (1int, 0int),
                Dir::Col => (0int, 1int),
            };
            &&& forall|r: Option<PaneId>| #[trigger]
                is_neighbor(panes, p, dx, dy, r) <==> r == Some(q)
            &&& forall|r: Option<PaneId>| #[trigger]
                is_neighbor(panes, q, -dx, -dy, r) <==> r == Some(p)
            &&& forall|r: Option<PaneId>| #[trigger]
                is_neighbor(panes, p, -dx, -dy, r) <==> r is None
            &&& forall|r: Option<PaneId>| #[trigger]
                is_neighbor(panes, q, dx, dy, r) <==> r is None
        }),
{
    let panes = seq![(p, a), (q, b)];
    let (dx, dy) = match dir {
        Dir::Row => (1int, 0int),
        Dir::Col => (0int, 1int),
    };
    reveal_with_fuel(area_of, 3);
    lemma_area_of_skip(panes, q, 1);
    assert(panes.skip(1)[0] == (q, b));
    assert(area_of(panes, p) == Some(a));
    assert(area_of(panes, q) == Some(b));
    assert(reachable(panes, p, a, dx, dy, 1));
    assert(nearest(panes, p, a, dx, dy, 1));
    assert(reachable(panes, q, b, -dx, -dy, 0));
    assert(nearest(panes, q, b, -dx, -dy, 0));
    lemma_neighbor_only(panes, p, a, dx, dy, 1);
    lemma_neighbor_only(panes, q, b, -dx, -dy, 0);
    assert forall|i: int| !#[trigger] reachable(panes, p, a, -dx, -dy, i) by {}
    assert forall|i: int| !#[trigger] reachable(panes, q, b, dx, dy, i) by {}
    lemma_neighbor_none(panes, p, a, -dx, -dy);
    lemma_neighbor_none(panes, q, b, dx, dy);
}

proof fn lemma_neighbor_only(
    panes: Seq<(PaneId, Area)>,
    from: PaneId,
    a: Area,
    dx: int,
    dy: int,
    k: int,
)
    requires
        area_of(panes, from) == Some(a),
        nearest(panes, from, a, dx, dy, k),
        forall|i: int| #[trigger] reachable(panes, from, a, dx, dy, i) ==> i == k,
    ensures
        forall|r: Option<PaneId>| #[trigger]
            is_neighbor(panes, from, dx, dy, r) <==> r == Some(panes[k].0),
{
    assert(reachable(panes, from, a, dx, dy, k));
    assert forall|r: Option<PaneId>| #[trigger]
        is_neighbor(panes, from, dx, dy, r) <==> r == Some(panes[k].0) by {
        match r {
            None => {
                if is_neighbor(panes, from, dx, dy, None::<PaneId>) {
                    assert(area_of(panes, from)->0 == a);
                    assert(!reachable(panes, from, a, dx, dy, k));
                }
            },
            Some(id) => {
                assert forall|i: int| #[trigger] nearest(panes, from, a, dx, dy, i) implies i
                    == k by {
                    assert(reachable(panes, from, a, dx, dy, i));
                }
            },
        }
    }
}

proof fn lemma_neighbor_none(
    panes: Seq<(PaneId, Area)>,
    from: PaneId,
    a: Area,
    dx: int,
    dy: int,
)
    requires
        area_of(panes, from) == Some(a),
        forall|i: int| !#[trigger] reachable(panes, from, a, dx, dy, i),
    ensures
        forall|r: Option<PaneId>| #[trigger] is_neighbor(panes, from, dx, dy, r) <==> r is None,
{
    assert forall|r: Option<PaneId>| #[trigger] is_neighbor(panes, from, dx, dy, r) <==> r
        is None by {
        match r {
            None => {},
            Some(id) => {
                assert forall|i: int| !#[trigger] nearest(panes, from, a, dx, dy, i) by {
                    assert(!reachable(panes, from, a, dx, dy, i));
                }
            },
        }
    }
}

/// The children of a row stand side by side from the left edge on, as high as
/// the row, each as wide as its share of the room; those of a column one below
/// the other from the top on, as wide as it. Between two of them is a gap.
pub proof fn law_children_in_line(a: Area, dir: Dir, fracs: Seq<u64>, i: int)
    requires
        0 <= i < fracs.len(),
        fracs[i] <= ONE,
    ensures
        ({
            let b = kid_area(a, dir, fracs, i);
            let n = fracs.len() as int;
            let whole = match dir {
                Dir::Row => a.w,
                Dir::Col => a.h,
            } - 4096 * (n - 1);
            let (at, len) = match dir {
                Dir::Row => (b.x - a.x, b.w),
                Dir::Col => (b.y - a.y, b.h),
            };
            &&& dir == Dir::Row ==> b.y == a.y && b.h == a.h
            &&& dir == Dir::Col ==> b.x == a.x && b.w == a.w
            &&& i == 0 ==> at == 0
            &&& i + 1 < n ==> {
                let c = kid_area(a, dir, fracs, i + 1);
                &&& dir == Dir::Row ==> c.x == b.x + b.w + 4096
                &&& dir == Dir::Col ==> c.y == b.y + b.h + 4096
            }
            &&& whole >= 0 ==> len * 0x4000_0000 <= whole * fracs[i] < (len + 1) * 0x4000_0000
            &&& whole <= 0 ==> len == 0
        }),
{
    let r = room(a, dir, fracs.len() as int);
    let f = fracs[i] as int;
    let q = r * f / 0x4000_0000;
    assert(q * 0x4000_0000 <= r * f < (q + 1) * 0x4000_0000) by (nonlinear_arith)
        requires
            q == r * f / 0x4000_0000,
    ;
    if r == 0 {
        assert(0 * f == 0) by (nonlinear_arith);
    }
}

/// Whether two panes are neighbouring children of a split that runs `dir`.
pub open spec fn beside_in(t: Tree, p: PaneId, q: PaneId, dir: Dir) -> bool
    decreases t,
{
    match t {
        Tree::Leaf(_) => false,
        Tree::Split { dir: d, kids, .. } => {
            ||| d == dir && exists|k: int|
                0 <= k < kids.len() - 1 && #[trigger] kids[k] == Tree::Leaf(p) && kids[k + 1]
                    == Tree::Leaf(q)
            ||| exists|k: int| 0 <= k < kids.len() && beside_in(#[trigger] kids[k], p, q, dir)
        },
    }
}

/// A split puts the new pane beside its target in the direction asked for, on
/// the side asked for.
pub proof fn law_split_direction(t: Tree, target: PaneId, dir: Dir, new_id: PaneId, before: bool)
    requires
        wf(t),
        leaves(t).contains(target),
    ensures
        before ==> beside_in(split_tree(t, target, dir, new_id, before), new_id, target, dir),
        !before ==> beside_in(split_tree(t, target, dir, new_id, before), target, new_id, dir),
    decreases t,
{
    let r = split_tree(t, target, dir, new_id, before);
    match t {
        Tree::Leaf(id) => {
            assert(leaves(t) =~= seq![id]);
            assert(id == target);
            assert(r->kids[0] == (if before {
                Tree::Leaf(new_id)
            } else {
                t
            }));
        },
        Tree::Split { dir: d, fracs, kids } => {
            lemma_leaf_pos(kids, target);
            lemma_holder_pos(kids, target);
            let i = leaf_pos(kids, target);
            let j = holder_pos(kids, target);
            if d == dir && i < kids.len() {
                assert(r->kids[i] == (if before {
                    Tree::Leaf(new_id)
                } else {
                    Tree::Leaf(target)
                }));
                assert(r->kids[i + 1] == (if before {
                    Tree::Leaf(target)
                } else {
                    Tree::Leaf(new_id)
                }));
            } else {
                lemma_has_holder(kids, target);
                law_split_direction(kids[j], target, dir, new_id, before);
                assert(r->kids[j] == split_tree(kids[j], target, dir, new_id, before));
            }
        },
    }
}

proof fn lemma_has_holder(kids: Seq<Tree>, id: PaneId)
    requires
        leaves_of(kids).contains(id),
    ensures
        holder_pos(kids, id) < kids.len(),
    decreases kids.len(),
{
    lemma_holder_pos(kids, id);
    if holder_pos(kids, id) == kids.len() {
        lemma_no_leaf(kids, id, kids.len() as int);
        assert(kids.take(kids.len() as int) =~= kids);
    }
}

proof fn lemma_no_leaf(kids: Seq<Tree>, id: PaneId, n: int)
    requires
        0 <= n <= kids.len(),
        forall|j: int| 0 <= j < n ==> !leaves(#[trigger] kids[j]).contains(id),
    ensures
        !leaves_of(kids.take(n)).contains(id),
    decreases n,
{
    let part = kids.take(n);
    if n > 0 {
        lemma_no_leaf(kids, id, n - 1);
        assert(part.drop_last() =~= kids.take(n - 1));
        assert(part.last() == kids[n - 1]);
        let (x, y) = (leaves_of(part.drop_last()), leaves(part.last()));
        if (x + y).contains(id) {
            let k = choose|k: int| 0 <= k < (x + y).len() && (x + y)[k] == id;
            if k < x.len() {
                assert(x[k] == id);
            } else {
                assert(y[k - x.len()] == id);
            }
        }
    }
}

proof fn lemma_panes_at(t: Tree, a: Area, n: int, k: int, m: int)
    requires
        t is Split,
        0 <= k < n <= t->kids.len(),
        0 <= m < panes_of(t->kids[k], kid_area(a, t->dir, t->fracs, k)).len(),
    ensures
        panes_upto(t, a, k).len() + panes_of(t->kids[k], kid_area(a, t->dir, t->fracs, k)).len()
            <= panes_upto(t, a, n).len(),
        panes_upto(t, a, n)[panes_upto(t, a, k).len() + m] == panes_of(
            t->kids[k],
            kid_area(a, t->dir, t->fracs, k),
        )[m],
    decreases n,
{
    if k < n - 1 {
        lemma_panes_at(t, a, n - 1, k, m);
    }
}

/// Panes that are neighbouring children of a row touch but for the gap between
/// them: the second is to the right of the first, at the same height; in a
/// column it is below it, at the same place across.
pub proof fn law_beside_on_screen(t: Tree, a: Area, p: PaneId, q: PaneId, dir: Dir) -> (k: int)
    requires
        wf(t),
        beside_in(t, p, q, dir),
    ensures
        0 <= k < panes_of(t, a).len() - 1,
        panes_of(t, a)[k].0 == p,
        panes_of(t, a)[k + 1].0 == q,
        ({
            let (b, c) = (panes_of(t, a)[k].1, panes_of(t, a)[k + 1].1);
            match dir {
                Dir::Row => c.x == b.x + b.w + 4096 && c.y == b.y && c.h == b.h,
                Dir::Col => c.y == b.y + b.h + 4096 && c.x == b.x && c.w == b.w,
            }
        }),
    decreases t,
{
    match t {
        Tree::Leaf(_) => 0,
        Tree::Split { dir: d, fracs, kids } => {
            let n = kids.len() as int;
            if d == dir && exists|k: int|
                0 <= k < kids.len() - 1 && #[trigger] kids[k] == Tree::Leaf(p) && kids[k + 1]
                    == Tree::Leaf(q) {
                let k = choose|k: int|
                    0 <= k < kids.len() - 1 && #[trigger] kids[k] == Tree::Leaf(p) && kids[k + 1]
                        == Tree::Leaf(q);
                lemma_panes_at(t, a, n, k, 0);
                lemma_panes_at(t, a, n, k + 1, 0);
                let at = panes_upto(t, a, k).len() as int;
                assert(panes_upto(t, a, k + 1).len() == at + 1);
                at
            } else {
                let k = choose|k: int|
                    0 <= k < kids.len() && beside_in(#[trigger] kids[k], p, q, dir);
                let m = law_beside_on_screen(kids[k], kid_area(a, d, fracs, k), p, q, dir);
                lemma_panes_at(t, a, n, k, m);
                lemma_panes_at(t, a, n, k, m + 1);
                panes_upto(t, a, k).len() + m
            }
        },
    }
}

/// A zoomed pane has the whole area to itself, without dividers; otherwise all
/// panes are on show.
pub proof fn law_zoom_fills(t: Tree, a: Area, z: PaneId)
    requires
        leaves(t).contains(z),
    ensures
        layout_panes(t, a, Some(z)) == seq![(z, a)],
        layout_gutters(t, a, Some(z)).len() == 0,
        names(layout_panes(t, a, None)) == leaves(t),
{
    law_layout_order(t, a);
}

/// The node that a path of child indices leads to.
pub open spec fn tree_at(t: Tree, path: Seq<usize>) -> Option<Tree>
    decreases path.len(),
{
    if path.len() == 0 {
        Some(t)
    } else {
        match t {
            Tree::Leaf(_) => None,
            Tree::Split { kids, .. } => if path[0] < kids.len() {
                tree_at(kids[path[0] as int], path.drop_first())
            } else {
                None
            },
        }
    }
}

/// Whether a divider lies just between two neighbouring children of the split
/// that its path leads to.
pub open spec fn sits_between(t: Tree, a: Area, path: Seq<usize>, g: Gutter) -> bool {
    tree_at(t, path) matches Some(s) && area_at(t, a, path) matches Some(b) && s is Split && {
        let (x, y) = (
            kid_area(b, s->dir, s->fracs, g.index as int),
            kid_area(b, s->dir, s->fracs, g.index + 1),
        );
        &&& g.index + 1 < s->kids.len()
        &&& g.dir == s->dir
        &&& s->dir == Dir::Row ==> g.rect == (Area { x: x.x + x.w, y: b.y, w: 4096, h: b.h })
            && y.x == g.rect.x + g.rect.w
        &&& s->dir == Dir::Col ==> g.rect == (Area { x: b.x, y: x.y + x.h, w: b.w, h: 4096 })
            && y.y == g.rect.y + g.rect.h
    }
}

/// Whether the children of every split can be counted.
pub open spec fn countable(t: Tree) -> bool
    decreases t,
{
    match t {
        Tree::Leaf(_) => true,
        Tree::Split { kids, .. } => kids.len() <= usize::MAX && forall|i: int|
            0 <= i < kids.len() ==> countable(#[trigger] kids[i]),
    }
}

/// Each divider on show sits between the two children that its path and index
/// name, so that dragging it moves the edge that it is drawn on.
pub proof fn law_dividers_between_children(t: Tree, a: Area, k: int)
    requires
        wf(t),
        countable(t),
        0 <= k < gutters_of(t, a, Seq::empty()).len(),
    ensures
        sits_between(
            t,
            a,
            gutters_of(t, a, Seq::empty())[k].path,
            gutters_of(t, a, Seq::empty())[k],
        ),
{
    let rel = lemma_gutters(t, a, Seq::empty(), k);
    assert(Seq::<usize>::empty() + rel =~= rel);
}

proof fn lemma_gutters(t: Tree, a: Area, path: Seq<usize>, k: int) -> (rel: Seq<usize>)
    requires
        wf(t),
        countable(t),
        0 <= k < gutters_of(t, a, path).len(),
    ensures
        gutters_of(t, a, path)[k].path == path + rel,
        sits_between(t, a, rel, gutters_of(t, a, path)[k]),
    decreases t, kid_count(t) + 1,
{
    match t {
        Tree::Leaf(_) => Seq::empty(),
        Tree::Split { kids, .. } => lemma_gutters_upto(t, a, path, kids.len() as int, k),
    }
}

proof fn lemma_gutters_upto(t: Tree, a: Area, path: Seq<usize>, n: int, k: int) -> (rel: Seq<usize>)
    requires
        wf(t),
        countable(t),
        t is Split,
        0 <= n <= t->kids.len(),
        0 <= k < gutters_upto(t, a, path, n).len(),
    ensures
        gutters_upto(t, a, path, n)[k].path == path + rel,
        sits_between(t, a, rel, gutters_upto(t, a, path, n)[k]),
    decreases t, n,
{
    match t {
        Tree::Leaf(_) => Seq::empty(),
        Tree::Split { dir, fracs, kids } => {
            let before = gutters_upto(t, a, path, n - 1);
            let b = kid_area(a, dir, fracs, n - 1);
            let inner = gutters_of(kids[n - 1], b, path.push((n - 1) as usize));
            if k < before.len() {
                lemma_gutters_upto(t, a, path, n - 1, k)
            } else if k < before.len() + inner.len() {
                let m = k - before.len();
                let r = lemma_gutters(kids[n - 1], b, path.push((n - 1) as usize), m);
                let rel = seq![(n - 1) as usize] + r;
                assert(path.push((n - 1) as usize) + r =~= path + rel);
                assert(rel.drop_first() =~= r);
                assert(gutters_upto(t, a, path, n)[k] == inner[m]);
                rel
            } else {
                let none = Seq::<usize>::empty();
                assert(path + none =~= path);
                none
            }
        },
    }
}

/// A divider that is dragged follows: the child before it grows by just what
/// the child behind it loses, as far as both keep the least share; a longer drag
/// never leaves it shorter.
pub proof fn law_drag_follows(fracs: Seq<u64>, index: int, delta: int, more: int)
    requires
        0 <= index,
        index + 1 < fracs.len(),
        2 * MIN_SHARE <= fracs[index] + fracs[index + 1] <= ONE,
        delta <= more,
    ensures
        MIN_SHARE <= fracs[index] + delta && MIN_SHARE <= fracs[index + 1] - delta ==> dragged(
            fracs,
            index,
            delta,
        )[index] == fracs[index] + delta && dragged(fracs, index, delta)[index + 1]
            == fracs[index + 1] - delta,
        fracs[index] + delta < MIN_SHARE ==> dragged(fracs, index, delta)[index] == MIN_SHARE,
        fracs[index + 1] - delta < MIN_SHARE ==> dragged(fracs, index, delta)[index + 1]
            == MIN_SHARE,
        dragged(fracs, index, delta)[index] <= dragged(fracs, index, more)[index],
{
}

/// A drag changes the shares of just the split that the divider's path leads to.
pub proof fn law_drag_hits_its_split(
    t: Tree,
    path: Seq<usize>,
    index: int,
    delta: int,
    q: Seq<usize>,
)
    requires
        tree_at(t, path) matches Some(s) && s is Split && 0 <= index && index + 1 < s->fracs.len(),
    ensures
        tree_at(drag_tree(t, path, index, delta), path) matches Some(r) && r is Split && r->fracs
            == dragged((tree_at(t, path)->0)->fracs, index, delta) && r->kids == (tree_at(
            t,
            path,
        )->0)->kids && r->dir == (tree_at(t, path)->0)->dir,
        q != path && (tree_at(t, q) matches Some(u) && u is Split) ==> (tree_at(
            drag_tree(t, path, index, delta),
            q,
        ) matches Some(r) && r is Split && r->fracs == (tree_at(t, q)->0)->fracs && r->dir
            == (tree_at(t, q)->0)->dir),
    decreases path.len(),
{
    match t {
        Tree::Leaf(_) => {
            assert(path.len() == 0);
        },
        Tree::Split { kids, .. } => {
            if path.len() > 0 {
                let i = path[0] as int;
                law_drag_hits_its_split(
                    kids[i],
                    path.drop_first(),
                    index,
                    delta,
                    q.drop_first(),
                );
                if q.len() > 0 && q[0] == path[0] && q.drop_first() == path.drop_first() {
                    assert(q =~= seq![q[0]] + q.drop_first());
                    assert(path =~= seq![path[0]] + path.drop_first());
                }
            } else if q.len() == 0 {
                assert(q =~= path);
            }
        },
    }
}

/// A pane that is split among its siblings shares its room evenly with the new
/// one; the others keep theirs.
pub proof fn law_split_shares_evenly(fracs: Seq<u64>, i: int, j: int)
    requires
        0 <= i < fracs.len(),
        0 <= j < fracs.len(),
    ensures
        ({
            let h = halved(fracs, i);
            &&& h.len() == fracs.len() + 1
            &&& h[i] + h[i + 1] == fracs[i]
            &&& h[i] <= h[i + 1] <= h[i] + 1
            &&& j < i ==> h[j] == fracs[j]
            &&& j > i ==> h[j + 1] == fracs[j]
        }),
{
}

/// A pane that is split across has its room halved.
pub proof fn law_split_alone_halves(id: PaneId, dir: Dir, new_id: PaneId, before: bool)
    ensures
        split_tree(Tree::Leaf(id), id, dir, new_id, before) == (Tree::Split {
            dir,
            fracs: seq![0x2000_0000u64, 0x2000_0000u64],
            kids: if before {
                seq![Tree::Leaf(new_id), Tree::Leaf(id)]
            } else {
                seq![Tree::Leaf(id), Tree::Leaf(new_id)]
            },
        }),
{
}

/// The room of a pane that is closed goes to its siblings in proportion to
/// theirs, up to rounding.
pub proof fn law_room_is_spread_in_proportion(fracs: Seq<u64>, freed: u64, i: int)
    requires
        0 <= i < fracs.len(),
        0 < total_share(fracs),
        total_share(fracs) + freed <= ONE,
    ensures
        spread(fracs, freed).len() == fracs.len(),
        ({
            let rest = total_share(fracs) as int;
            let s = spread(fracs, freed)[i] as int;
            rest * (s - 1) < fracs[i] * (rest + freed) < rest * (s + 1)
        }),
{
    let rest = total_share(fracs) as int;
    let all = rest + freed;
    lemma_total_share_take(fracs, i);
    let p = total_share(fracs.take(i)) as int;
    let q = total_share(fracs.take(i + 1)) as int;
    let f = fracs[i] as int;
    let (c, d) = (p * all / rest, q * all / rest);
    assert(rest * c <= p * all < rest * c + rest) by (nonlinear_arith)
        requires
            c == p * all / rest,
            rest > 0,
    ;
    assert(rest * d <= q * all < rest * d + rest) by (nonlinear_arith)
        requires
            d == q * all / rest,
            rest > 0,
    ;
    assert(q * all == p * all + f * all) by (nonlinear_arith)
        requires
            q == p + f,
    ;
    assert(rest * (d - c - 1) == rest * d - rest * c - rest && rest * (d - c + 1) == rest * d - rest
        * c + rest) by (nonlinear_arith);
    assert(0 <= d - c <= u64::MAX) by (nonlinear_arith)
        requires
            rest * d - rest * c > f * all - rest,
            rest * d - rest * c < f * all + rest,
            0 <= f <= rest,
            0 <= all <= 0x4000_0000,
            0 < rest,
    ;
}

/// Where one of two children is closed, the other has all the room there was.
pub proof fn law_last_sibling_has_all(dir: Dir, fracs: Seq<u64>, id: PaneId, other: Tree, a: Area)
    requires
        other != Tree::Leaf(id),
    ensures
        panes_of(
            remove_tree(Tree::Split { dir, fracs, kids: seq![Tree::Leaf(id), other] }, id),
            a,
        ) == panes_of(other, a),
        panes_of(
            remove_tree(Tree::Split { dir, fracs, kids: seq![other, Tree::Leaf(id)] }, id),
            a,
        ) == panes_of(other, a),
{
    let k = seq![Tree::Leaf(id), other];
    let l = seq![other, Tree::Leaf(id)];
    lemma_leaf_pos_is(k, id, 0);
    assert(l[0] != Tree::Leaf(id));
    lemma_leaf_pos_is(l, id, 1);
    assert(k.remove(0) =~= seq![other]);
    assert(l.remove(1) =~= seq![other]);
}

} // verus!
