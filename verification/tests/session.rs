use baduhan::pane_tree::{collect_leaves, Dir, Node, PaneId, ONE};
use baduhan::session::{
    path, rebuild_node, saved_panes, snapshot_node, worth_saving, LeafState, NodeState, PaneType,
    Session, TabState, WindowState,
};
use serde_json::Value;

fn share(f: f64) -> u64 {
    (f * ONE as f64) as u64
}

fn to_json(n: &NodeState) -> Value {
    let mut m = serde_json::Map::new();
    match n {
        NodeState::Leaf(l) => {
            let mut leaf = serde_json::Map::new();
            let kind = if l.kind == PaneType::Term { "Term" } else { "Browser" };
            leaf.insert("kind".to_string(), Value::String(kind.to_string()));
            if let Some(p) = &l.profile {
                leaf.insert("profile".to_string(), Value::String(p.clone()));
            }
            m.insert("Leaf".to_string(), Value::Object(leaf));
        },
        NodeState::Split { row, fracs, kids } => {
            let mut split = serde_json::Map::new();
            split.insert("row".to_string(), Value::Bool(*row));
            let shares: Vec<Value> = fracs.iter().map(|f| Value::from(*f)).collect();
            split.insert("fracs".to_string(), Value::Array(shares));
            split.insert("kids".to_string(), Value::Array(kids.iter().map(to_json).collect()));
            m.insert("Split".to_string(), Value::Object(split));
        },
    }
    Value::Object(m)
}

fn from_json(v: &Value) -> NodeState {
    match v.get("Split") {
        Some(s) => NodeState::Split {
            row: s["row"].as_bool().unwrap(),
            fracs: s["fracs"].as_array().unwrap().iter().map(|f| f.as_u64().unwrap()).collect(),
            kids: s["kids"].as_array().unwrap().iter().map(from_json).collect(),
        },
        None => {
            let l = &v["Leaf"];
            NodeState::Leaf(LeafState {
                kind: if l["kind"] == "Term" { PaneType::Term } else { PaneType::Browser },
                profile: l["profile"].as_str().map(String::from),
                cwd: None,
                url: None,
            })
        },
    }
}

fn term(profile: &str) -> LeafState {
    LeafState { kind: PaneType::Term, profile: Some(profile.to_string()), cwd: None, url: None }
}

#[test]
fn snapshot_and_rebuild_roundtrip() {
    // Row [1, Col [2, 3]]
    let tree = Node::Split {
        dir: Dir::Row,
        fracs: vec![share(0.6), share(0.4)],
        kids: vec![
            Node::Leaf(1),
            Node::Split {
                dir: Dir::Col,
                fracs: vec![share(0.5), share(0.5)],
                kids: vec![Node::Leaf(2), Node::Leaf(3)],
            },
        ],
    };
    let snap = snapshot_node(&tree, &|id: PaneId| LeafState {
        kind: PaneType::Term,
        profile: Some(format!("p{id}")),
        cwd: None,
        url: None,
    });
    let mut next = 100;
    let ids: Vec<Option<PaneId>> = saved_panes(&snap)
        .into_iter()
        .map(|leaf| {
            assert_eq!(leaf.kind, PaneType::Term);
            next += 1;
            Some(next)
        })
        .collect();
    let rebuilt = rebuild_node(&snap, &ids).unwrap();
    assert_eq!(collect_leaves(&rebuilt).len(), 3);
    let json = serde_json::to_string(&to_json(&snap)).unwrap();
    let back: NodeState = from_json(&serde_json::from_str(&json).unwrap());
    assert!(matches!(back, NodeState::Split { row: true, .. }));
}

#[test]
fn rebuild_drops_failed_leaves_and_collapses() {
    let snap = NodeState::Split {
        row: true,
        fracs: vec![share(0.5), share(0.5)],
        kids: vec![NodeState::Leaf(term("dead")), NodeState::Leaf(term("alive"))],
    };
    let ids: Vec<Option<PaneId>> = saved_panes(&snap)
        .into_iter()
        .map(|leaf| (leaf.profile.as_deref() == Some("alive")).then_some(7))
        .collect();
    let rebuilt = rebuild_node(&snap, &ids).unwrap();
    assert!(matches!(rebuilt, Node::Leaf(7)));
}

#[test]
fn restoring_gives_the_same_tree_back() {
    let tree = Node::Split {
        dir: Dir::Col,
        fracs: vec![ONE / 4, ONE / 4 * 3],
        kids: vec![Node::Leaf(5), Node::Leaf(6)],
    };
    let snap = snapshot_node(&tree, &|_: PaneId| term("x"));
    match rebuild_node(&snap, &[Some(5), Some(6)]).unwrap() {
        Node::Split { dir, fracs, kids } => {
            assert_eq!(dir, Dir::Col);
            assert_eq!(fracs, vec![ONE / 4, ONE / 4 * 3]);
            assert!(matches!(kids[0], Node::Leaf(5)));
            assert!(matches!(kids[1], Node::Leaf(6)));
        },
        _ => panic!("expected split"),
    }
}

#[test]
fn restored_panes_stand_where_the_saved_ones_stood() {
    let tree = Node::Split {
        dir: Dir::Row,
        fracs: vec![ONE / 4, ONE / 4 * 3],
        kids: vec![
            Node::Leaf(5),
            Node::Split {
                dir: Dir::Col,
                fracs: vec![ONE / 2, ONE / 2],
                kids: vec![Node::Leaf(9), Node::Leaf(6)],
            },
        ],
    };
    let snap = snapshot_node(&tree, &|id: PaneId| term(&format!("shell {id}")));
    let names: Vec<String> =
        saved_panes(&snap).iter().map(|l| l.profile.clone().unwrap()).collect();
    assert_eq!(names, vec!["shell 5", "shell 9", "shell 6"]);
    let again = rebuild_node(&snap, &[Some(20), Some(21), Some(22)]).unwrap();
    assert_eq!(collect_leaves(&again), vec![20, 21, 22]);
    match again {
        Node::Split { dir, fracs, kids } => {
            assert_eq!((dir, fracs), (Dir::Row, vec![ONE / 4, ONE / 4 * 3]));
            match &kids[1] {
                Node::Split { dir, fracs, .. } => {
                    assert_eq!((*dir, fracs.as_slice()), (Dir::Col, &[ONE / 2, ONE / 2][..]));
                },
                _ => panic!("expected split"),
            }
        },
        _ => panic!("expected split"),
    }
}

#[test]
fn nothing_is_left_of_a_tree_without_panes() {
    let snap = NodeState::Split {
        row: false,
        fracs: vec![ONE / 2, ONE / 2],
        kids: vec![NodeState::Leaf(term("a")), NodeState::Leaf(term("b"))],
    };
    assert!(rebuild_node(&snap, &[None, None]).is_none());
}

#[test]
fn shares_of_the_living_are_scaled_up() {
    let snap = NodeState::Split {
        row: true,
        fracs: vec![ONE / 2, ONE / 4, ONE / 4],
        kids: vec![
            NodeState::Leaf(term("a")),
            NodeState::Leaf(term("b")),
            NodeState::Leaf(term("c")),
        ],
    };
    match rebuild_node(&snap, &[None, Some(1), Some(2)]).unwrap() {
        Node::Split { fracs, .. } => assert_eq!(fracs, vec![ONE / 2, ONE / 2]),
        _ => panic!("expected split"),
    }
}

#[test]
fn the_session_lies_beside_the_settings() {
    assert_eq!(path("C:\\x\\baduhan\\settings.json"), "C:\\x\\baduhan\\session.json");
    assert_eq!(path("settings.json"), "session.json");
}

#[test]
fn a_session_without_tabs_is_not_worth_saving() {
    let window = |tabs: Vec<TabState>| WindowState { x: 0, y: 0, w: 1, h: 1, active: 0, tabs };
    assert!(!worth_saving(&Session { windows: vec![] }));
    assert!(!worth_saving(&Session { windows: vec![window(vec![])] }));
    let tab = TabState { font_size: 13000, active_leaf: 0, tree: NodeState::Leaf(term("a")) };
    assert!(worth_saving(&Session { windows: vec![window(vec![]), window(vec![tab])] }));
}
