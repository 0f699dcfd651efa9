use baduhan::pane_tree::{
    collect_leaves, drag_divider, has_drag_room, has_leaf, layout, move_pane, neighbor, remove,
    split, split_extent, swap, Dir, Layout, Node, RectF, DIP, MIN_SHARE, ONE,
};

const AREA: RectF = RectF { x: 0, y: 0, w: 1000 * DIP, h: 600 * DIP };

fn share(f: u64) -> f64 {
    f as f64 / ONE as f64
}

fn shares(n: &Node) -> Vec<u64> {
    match n {
        Node::Split { fracs, .. } => fracs.clone(),
        Node::Leaf(_) => Vec::new(),
    }
}

#[test]
fn split_leaf_creates_two_panes() {
    let mut root = Node::Leaf(1);
    assert!(split(&mut root, 1, Dir::Row, 2));
    let lay = layout(&root, AREA, None);
    assert_eq!(lay.panes.len(), 2);
    assert_eq!(lay.dividers.len(), 1);
    // Side by side, equal-ish halves.
    let r1 = lay.rect_of(1).unwrap();
    let r2 = lay.rect_of(2).unwrap();
    assert!(r1.x < r2.x);
    assert!((r1.w - r2.w).abs() < DIP);
    assert_eq!(r1.h, AREA.h);
}

#[test]
fn same_direction_split_inserts_sibling_not_nested() {
    let mut root = Node::Leaf(1);
    split(&mut root, 1, Dir::Row, 2);
    split(&mut root, 2, Dir::Row, 3);
    // One flat split with 3 kids, not a nested tree.
    match &root {
        Node::Split { kids, dir, .. } => {
            assert_eq!(*dir, Dir::Row);
            assert_eq!(kids.len(), 3);
        },
        _ => panic!("expected split"),
    }
    assert_eq!(collect_leaves(&root), vec![1, 2, 3]);
}

#[test]
fn cross_direction_split_nests() {
    let mut root = Node::Leaf(1);
    split(&mut root, 1, Dir::Row, 2);
    split(&mut root, 2, Dir::Col, 3);
    let lay = layout(&root, AREA, None);
    let r2 = lay.rect_of(2).unwrap();
    let r3 = lay.rect_of(3).unwrap();
    // 3 is stacked below 2 in the right half.
    assert_eq!(r2.x, r3.x);
    assert!(r3.y > r2.y);
}

#[test]
fn remove_collapses_single_child_split() {
    let mut root = Node::Leaf(1);
    split(&mut root, 1, Dir::Row, 2);
    split(&mut root, 2, Dir::Col, 3);
    assert!(remove(&mut root, 3));
    // Back to a flat 2-leaf row.
    match &root {
        Node::Split { kids, .. } => assert_eq!(kids.len(), 2),
        _ => panic!("expected split"),
    }
    assert!(remove(&mut root, 2));
    assert!(matches!(root, Node::Leaf(1)));
    // Last leaf refuses removal: the caller closes the tab instead.
    assert!(!remove(&mut root, 1));
}

#[test]
fn removed_space_is_redistributed() {
    let mut root = Node::Leaf(1);
    split(&mut root, 1, Dir::Row, 2);
    split(&mut root, 2, Dir::Row, 3);
    remove(&mut root, 2);
    if let Node::Split { fracs, .. } = &root {
        let sum: f64 = fracs.iter().map(|f| share(*f)).sum();
        assert!((sum - 1.0).abs() < 1e-4);
    } else {
        panic!("expected split");
    }
}

#[test]
fn zoom_shows_only_zoomed_pane() {
    let mut root = Node::Leaf(1);
    split(&mut root, 1, Dir::Row, 2);
    let lay = layout(&root, AREA, Some(2));
    assert_eq!(lay.panes.len(), 1);
    assert_eq!(lay.panes[0].0, 2);
    assert_eq!(lay.panes[0].1.w, AREA.w);
}

#[test]
fn divider_drag_clamps_to_minimum() {
    let mut root = Node::Leaf(1);
    split(&mut root, 1, Dir::Row, 2);
    drag_divider(&mut root, &[], 0, -10 * ONE as i64); // absurd drag left
    if let Node::Split { fracs, .. } = &root {
        assert!(share(fracs[0]) >= 0.05);
        assert!((share(fracs[0]) + share(fracs[1]) - 1.0).abs() < 1e-4);
    } else {
        panic!("expected split");
    }
}

#[test]
fn neighbor_finds_pane_in_direction() {
    let mut root = Node::Leaf(1);
    split(&mut root, 1, Dir::Row, 2);
    split(&mut root, 2, Dir::Col, 3);
    let lay = layout(&root, AREA, None);
    assert_eq!(neighbor(&lay, 1, 1, 0), Some(2));
    assert_eq!(neighbor(&lay, 2, 0, 1), Some(3));
    assert_eq!(neighbor(&lay, 3, -1, 0), Some(1));
    assert_eq!(neighbor(&lay, 1, -1, 0), None);
}

#[test]
fn layout_rects_do_not_overlap() {
    let mut root = Node::Leaf(1);
    split(&mut root, 1, Dir::Row, 2);
    split(&mut root, 2, Dir::Col, 3);
    split(&mut root, 1, Dir::Col, 4);
    let lay = layout(&root, AREA, None);
    for (i, (_, a)) in lay.panes.iter().enumerate() {
        for (_, b) in lay.panes.iter().skip(i + 1) {
            let overlap_x = a.x < b.x + b.w && b.x < a.x + a.w;
            let overlap_y = a.y < b.y + b.h && b.y < a.y + a.h;
            assert!(!(overlap_x && overlap_y), "panes overlap: {a:?} {b:?}");
        }
    }
}

#[test]
fn shares_always_make_up_the_whole() {
    let mut root = Node::Leaf(1);
    split(&mut root, 1, Dir::Row, 2);
    split(&mut root, 2, Dir::Row, 3);
    split(&mut root, 3, Dir::Row, 4);
    assert_eq!(shares(&root), vec![ONE / 2, ONE / 4, ONE / 8, ONE / 8]);
    remove(&mut root, 1);
    assert_eq!(shares(&root).iter().sum::<u64>(), ONE);
    assert_eq!(shares(&root), vec![ONE / 2, ONE / 4, ONE / 4]);
    drag_divider(&mut root, &[], 1, ONE as i64 / 8);
    assert_eq!(shares(&root), vec![ONE / 2, ONE / 4 + ONE / 8, ONE / 8]);
}

#[test]
fn splitting_an_unknown_pane_does_nothing() {
    let mut root = Node::Leaf(1);
    assert!(!split(&mut root, 9, Dir::Row, 2));
    assert!(matches!(root, Node::Leaf(1)));
    assert!(!remove(&mut root, 9));
}

#[test]
fn closing_a_split_pane_brings_the_panes_back() {
    let mut root = Node::Leaf(1);
    split(&mut root, 1, Dir::Row, 2);
    let before = collect_leaves(&root);
    split(&mut root, 1, Dir::Col, 3);
    assert_eq!(collect_leaves(&root), vec![1, 3, 2]);
    remove(&mut root, 3);
    assert_eq!(collect_leaves(&root), before);
}

#[test]
fn two_panes_change_places() {
    let mut root = Node::Leaf(1);
    split(&mut root, 1, Dir::Row, 2);
    split(&mut root, 2, Dir::Col, 3);
    let was = shares(&root);
    swap(&mut root, 1, 3);
    assert_eq!(collect_leaves(&root), vec![3, 2, 1]);
    assert_eq!(shares(&root), was);
}

#[test]
fn a_pane_moves_beside_another() {
    let mut root = Node::Leaf(1);
    split(&mut root, 1, Dir::Row, 2);
    split(&mut root, 2, Dir::Row, 3);
    assert!(move_pane(&mut root, 1, 3, Dir::Col, true));
    assert_eq!(collect_leaves(&root), vec![2, 1, 3]);
    assert!(!move_pane(&mut root, 1, 1, Dir::Row, false));
    assert!(!move_pane(&mut root, 1, 9, Dir::Row, false));
    assert_eq!(collect_leaves(&root), vec![2, 1, 3]);
}

#[test]
fn a_divider_needs_room_to_be_dragged() {
    let mut root = Node::Leaf(1);
    split(&mut root, 1, Dir::Row, 2);
    assert!(has_drag_room(&root, &[], 0));
    let tight = Node::Split {
        dir: Dir::Row,
        fracs: vec![MIN_SHARE, MIN_SHARE - 1, ONE - 2 * MIN_SHARE + 1],
        kids: vec![Node::Leaf(1), Node::Leaf(2), Node::Leaf(3)],
    };
    assert!(!has_drag_room(&tight, &[], 0));
    assert!(has_drag_room(&tight, &[], 1));
}

#[test]
fn a_drag_in_a_nested_split_moves_that_divider() {
    let mut root = Node::Leaf(1);
    split(&mut root, 1, Dir::Row, 2);
    split(&mut root, 2, Dir::Col, 3);
    drag_divider(&mut root, &[1], 0, ONE as i64 / 4);
    assert_eq!(shares(&root), vec![ONE / 2, ONE / 2]);
    match &root {
        Node::Split { kids, .. } => {
            assert_eq!(shares(&kids[1]), vec![ONE / 4 * 3, ONE / 4]);
        },
        _ => panic!("expected split"),
    }
}

#[test]
fn extents_leave_room_for_the_divider() {
    let mut root = Node::Leaf(1);
    split(&mut root, 1, Dir::Row, 2);
    let lay = layout(&root, AREA, None);
    let a = lay.rect_of(1).unwrap();
    let b = lay.rect_of(2).unwrap();
    let d = &lay.dividers[0];
    assert_eq!(a.x + a.w, d.rect.x);
    assert_eq!(d.rect.x + d.rect.w, b.x);
    assert_eq!(d.path, Vec::<usize>::new());
    assert_eq!(split_extent(&root, &[], AREA, Dir::Row), AREA.w);
    assert!(has_leaf(&root, 2) && !has_leaf(&root, 3));
}

#[test]
fn a_point_is_in_a_rectangle_up_to_its_far_edge() {
    let r = RectF { x: 10, y: 20, w: 30, h: 40 };
    assert!(r.contains(10, 20));
    assert!(r.contains(39, 59));
    assert!(!r.contains(40, 20));
    assert!(!r.contains(10, 60));
    assert_eq!(r.center(), (25, 40));
}

#[test]
fn an_unknown_pane_has_no_rectangle() {
    let lay: Layout = layout(&Node::Leaf(1), AREA, None);
    assert!(lay.rect_of(2).is_none());
    assert_eq!(lay.rect_of(1).unwrap(), AREA);
    assert_eq!(neighbor(&lay, 2, 1, 0), None);
}
