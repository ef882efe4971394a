use itree::{ITree, NodeId, TreeError};

#[test]
fn insert() {
    let mut tree = ITree::new();
    // 0
    tree.add_node(NodeId(0), 0).unwrap();
    // 0 -> 1
    tree.add_node(NodeId(0), 1).unwrap();
    // 0 -> 1
    // |--> 2
    tree.add_node(NodeId(0), 2).unwrap();
    // 0 -> 1
    // |--> 2 -> 3
    tree.add_node(NodeId(2), 3).unwrap();

    assert_eq!(*tree.get(NodeId(0)).unwrap().value(), 0);
    assert_eq!(*tree.get(NodeId(1)).unwrap().value(), 1);
    assert_eq!(*tree.get(NodeId(2)).unwrap().value(), 2);
    assert_eq!(*tree.get(NodeId(3)).unwrap().value(), 3);

    assert_eq!(tree.get(NodeId(0)).unwrap().parent(), None);
    assert_eq!(tree.get(NodeId(1)).unwrap().parent(), Some(NodeId(0)));
    assert_eq!(tree.get(NodeId(2)).unwrap().parent(), Some(NodeId(0)));
    assert_eq!(tree.get(NodeId(3)).unwrap().parent(), Some(NodeId(2)));

    assert_eq!(tree.get(NodeId(0)).unwrap().children(), &vec![NodeId(1), NodeId(2)]);
    assert_eq!(tree.get(NodeId(1)).unwrap().children(), &vec![]);
    assert_eq!(tree.get(NodeId(2)).unwrap().children(), &vec![NodeId(3)]);
    assert_eq!(tree.get(NodeId(3)).unwrap().children(), &vec![]);
}

#[test]
fn new_tree_is_empty() {
    let tree: ITree<u32> = ITree::new();
    assert!(tree.root().is_none());
    for i in [0usize, 1, 2, 42, usize::MAX] {
        assert!(tree.get(NodeId(i)).is_none());
    }
}

#[test]
fn single_node() {
    let mut tree = ITree::new();
    assert_eq!(tree.add_node(NodeId(42), "a"), Ok(NodeId(0)));
    let root = tree.root().unwrap();
    assert_eq!(*root.value(), "a");
    assert_eq!(root.parent(), None);
    assert!(root.children().is_empty());
    assert!(tree.get(NodeId(1)).is_none());
}

#[test]
fn first_insertion_ignores_parent() {
    for p in [0usize, 1, 7, 999, usize::MAX] {
        let mut tree = ITree::new();
        assert_eq!(tree.add_node(NodeId(p), p), Ok(NodeId(0)));
        assert_eq!(*tree.get(NodeId(0)).unwrap().value(), p);
        assert_eq!(tree.get(NodeId(0)).unwrap().parent(), None);
    }
}

#[test]
fn deep_chain() {
    let mut tree = ITree::new();
    let a = tree.add_node(NodeId(7), "r").unwrap();
    let b = tree.add_node(a, "x").unwrap();
    let c = tree.add_node(b, "y").unwrap();
    let d = tree.add_node(c, "z").unwrap();
    assert_eq!([a, b, c, d], [NodeId(0), NodeId(1), NodeId(2), NodeId(3)]);
    assert_eq!(tree.get(a).unwrap().parent(), None);
    assert_eq!(tree.get(b).unwrap().parent(), Some(a));
    assert_eq!(tree.get(c).unwrap().parent(), Some(b));
    assert_eq!(tree.get(d).unwrap().parent(), Some(c));
    assert_eq!(tree.get(a).unwrap().children(), &vec![b]);
    assert_eq!(tree.get(b).unwrap().children(), &vec![c]);
    assert_eq!(tree.get(c).unwrap().children(), &vec![d]);
    assert!(tree.get(d).unwrap().children().is_empty());
    assert_eq!(*tree.get(c).unwrap().value(), "y");
}

#[test]
fn fan_out() {
    let n: usize = 50;
    let mut tree = ITree::new();
    let root = tree.add_node(NodeId(0), 0usize).unwrap();
    for i in 1..=n {
        assert_eq!(tree.add_node(root, i), Ok(NodeId(i)));
    }
    let expected: Vec<NodeId> = (1..=n).map(NodeId).collect();
    assert_eq!(tree.root().unwrap().children(), &expected);
    for i in 1..=n {
        assert_eq!(tree.get(NodeId(i)).unwrap().parent(), Some(NodeId(0)));
    }
}

#[test]
fn values_stay_under_growth() {
    let mut tree = ITree::new();
    let mut ids = Vec::new();
    for i in 0..100u64 {
        let parent = if ids.is_empty() { NodeId(0) } else { ids[(i as usize * 7) % ids.len()] };
        let id = tree.add_node(parent, i * 3).unwrap();
        ids.push(id);
        for (k, old) in ids.iter().enumerate().step_by(3) {
            let node = tree.get(*old).unwrap();
            assert_eq!(*node.value(), k as u64 * 3);
        }
    }
    for id in &ids {
        assert!(tree.get(*id).is_some());
    }
}

#[test]
fn bad_parent_is_refused() {
    let mut tree = ITree::new();
    tree.add_node(NodeId(0), 10).unwrap();
    assert_eq!(tree.add_node(NodeId(999), 11), Err(TreeError::OutOfRangeParent));
    assert_eq!(tree.add_node(NodeId(1), 12), Err(TreeError::OutOfRangeParent));
    assert!(tree.get(NodeId(1)).is_none());
    assert!(tree.root().unwrap().children().is_empty());
    assert_eq!(*tree.root().unwrap().value(), 10);
    assert_eq!(tree.add_node(NodeId(0), 13), Ok(NodeId(1)));
}

#[test]
fn children_follow_insertion_order() {
    // (parent, value) for each insertion after the root
    let calls = [(0usize, 1), (0, 2), (1, 3), (0, 4), (2, 5), (1, 6), (3, 7), (2, 8)];
    let mut tree = ITree::new();
    tree.add_node(NodeId(0), 0).unwrap();
    for (parent, value) in calls {
        tree.add_node(NodeId(parent), value).unwrap();
    }
    let n = calls.len() + 1;
    for p in 0..n {
        let expected: Vec<NodeId> = calls
            .iter()
            .enumerate()
            .filter(|(_, (q, _))| *q == p)
            .map(|(i, _)| NodeId(i + 1))
            .collect();
        assert_eq!(tree.get(NodeId(p)).unwrap().children(), &expected);
    }
}

#[test]
fn every_node_but_root_appears_once() {
    let calls = [0usize, 0, 1, 1, 3, 0, 5, 2];
    let mut tree = ITree::new();
    tree.add_node(NodeId(0), 'r').unwrap();
    for p in calls {
        tree.add_node(NodeId(p), 'x').unwrap();
    }
    let n = calls.len() + 1;
    for id in 0..n {
        let mut seen = 0;
        for p in 0..n {
            seen += tree.get(NodeId(p)).unwrap().children().iter().filter(|c| **c == NodeId(id)).count();
        }
        assert_eq!(seen, if id == 0 { 0 } else { 1 });
        let parent = tree.get(NodeId(id)).unwrap().parent();
        if id == 0 {
            assert_eq!(parent, None);
        } else {
            assert!(parent.unwrap().0 < id);
        }
    }
}
