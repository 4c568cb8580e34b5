use mcts_engine::tree::half::copy_subtree;
use mcts_engine::tree::node::Q_ONE;
use mcts_engine::tree::TreeHalf;
use mcts_engine::{GameState, NodePtr, Tree};

/// Builds root -> 3 children, the second of which has 2 children, in the
/// active half; returns the root and the second child.
fn build(tree: &mut Tree) -> (NodePtr, NodePtr) {
    let root = tree.push_new(GameState::Ongoing);
    tree.set_root(root);
    let first = tree.push_new(GameState::Ongoing);
    let second = tree.push_new(GameState::Ongoing);
    let third = tree.push_new(GameState::Draw);
    assert!(!third.is_null());
    {
        let r = tree.node_mut(root);
        *r.actions_mut() = first;
        r.set_num_actions(3);
        r.update(100);
        r.update(300);
    }
    tree.node_mut(first).set_new(11, 1000);
    tree.node_mut(second).set_new(22, 2000);
    tree.node_mut(third).set_new(33, 3000);
    tree.node_mut(third).set_state(GameState::Draw);
    let g1 = tree.push_new(GameState::Ongoing);
    let g2 = tree.push_new(GameState::WhiteWin);
    assert!(!g2.is_null());
    tree.node_mut(g1).set_new(44, 4000);
    tree.node_mut(g2).set_new(55, 5000);
    tree.node_mut(g2).set_state(GameState::WhiteWin);
    {
        let s = tree.node_mut(second);
        *s.actions_mut() = g1;
        s.set_num_actions(2);
        s.update(7);
    }
    (root, second)
}

#[test]
fn new_tree_has_no_root() {
    let t = Tree::new(64);
    assert!(t.root_node().is_null());
    assert!(!t.active_half());
}

#[test]
fn swap_promotes_a_subtree() {
    let mut t = Tree::new(64);
    let (_root, second) = build(&mut t);
    assert!(t.swap_to(second));
    assert!(t.active_half());
    let root = t.root_node();
    assert_eq!(root, NodePtr::new(true, 0));
    let r = t.node(root);
    assert_eq!(r.parent_move(), 22);
    assert_eq!(r.visits(), 1);
    assert_eq!(r.q(), 7);
    assert_eq!(r.num_actions(), 2);
    let first = r.actions();
    assert_eq!(first, NodePtr::new(true, 1));
    assert_eq!(t.node(first).parent_move(), 44);
    assert_eq!(t.node(first.offset(1)).parent_move(), 55);
    assert_eq!(t.node(first.offset(1)).state(), GameState::WhiteWin);
    // new nodes now go to the promoted half, after the copied ones
    let next = t.push_new(GameState::Ongoing);
    assert_eq!(next, NodePtr::new(true, 3));
}

#[test]
fn swap_and_swap_back_keeps_root_statistics() {
    let mut t = Tree::new(64);
    let (root, _) = build(&mut t);
    let (visits, q, sq_q, policy, mov) = {
        let r = t.node(root);
        (r.visits(), r.q(), r.sq_q(), r.policy(), r.parent_move())
    };
    assert!(t.swap_to(root));
    let there = t.root_node();
    assert!(t.swap_to(there));
    assert!(!t.active_half());
    let back = t.node(t.root_node());
    assert_eq!(back.visits(), visits);
    assert_eq!(back.q(), q);
    assert_eq!(back.sq_q(), sq_q);
    assert_eq!(back.policy(), policy);
    assert_eq!(back.parent_move(), mov);
    assert_eq!(back.num_actions(), 3);
}

#[test]
fn swap_fails_when_other_half_is_too_small() {
    // 5 nodes per half; the first child shares two of its siblings as its
    // own children, so the copy needs 1 + 4 + 2 = 7 slots
    let mut t = Tree::new(10);
    let root = t.push_new(GameState::Ongoing);
    t.set_root(root);
    let kids = t.push_new(GameState::Ongoing);
    for _ in 0..3 {
        t.push_new(GameState::Ongoing);
    }
    {
        let r = t.node_mut(root);
        *r.actions_mut() = kids;
        r.set_num_actions(4);
    }
    {
        let k = t.node_mut(kids);
        *k.actions_mut() = kids.offset(1);
        k.set_num_actions(2);
    }
    assert!(!t.swap_to(root));
    assert!(!t.active_half());
    assert_eq!(t.root_node(), root);
    assert_eq!(t.node(root).num_actions(), 4);
}

#[test]
fn swap_rejects_node_of_inactive_half() {
    let mut t = Tree::new(8);
    let root = t.push_new(GameState::Ongoing);
    t.set_root(root);
    assert!(!t.swap_to(NodePtr::new(true, 0)));
    assert_eq!(t.root_node(), root);
}

#[test]
fn copy_subtree_rejects_children_outside_half() {
    let mut src = TreeHalf::new(4, false);
    let mut dst = TreeHalf::new(4, true);
    let root = src.push_new(GameState::Ongoing);
    {
        let r = src.node_mut(root);
        *r.actions_mut() = NodePtr::new(false, 3);
        r.set_num_actions(2);
    }
    assert!(copy_subtree(&src, &mut dst, root).is_null());
    assert!(copy_subtree(&src, &mut dst, NodePtr::new(false, 9)).is_null());
}

#[test]
fn copy_subtree_of_a_leaf() {
    let mut src = TreeHalf::new(4, false);
    let mut dst = TreeHalf::new(2, true);
    let leaf = src.push_new(GameState::BlackWin);
    src.node_mut(leaf).update(5);
    let c = copy_subtree(&src, &mut dst, leaf);
    assert_eq!(c, NodePtr::new(true, 0));
    assert_eq!(dst.used(), 1);
    assert_eq!(dst.node(c).state(), GameState::BlackWin);
    assert_eq!(dst.node(c).q(), 5);
}

#[test]
fn clear_forgets_root_and_nodes() {
    let mut t = Tree::new(16);
    let (root, _) = build(&mut t);
    t.clear();
    assert!(t.root_node().is_null());
    assert_eq!(t.push_new(GameState::Ongoing), root);
}

#[test]
fn expand_allocates_contiguous_children() {
    let mut t = Tree::new(16);
    let root = t.push_new(GameState::Ongoing);
    t.set_root(root);
    assert!(t.expand(root, &vec![101, 202, 303], &vec![10, 20, 30]));
    let r = t.node(root);
    assert_eq!(r.num_actions(), 3);
    assert!(!r.actions().is_null());
    let first = r.actions();
    assert_eq!(first, NodePtr::new(false, 1));
    for (i, (m, p)) in [(101u16, 10u16), (202, 20), (303, 30)].iter().enumerate() {
        let c = t.node(first.offset(i));
        assert_eq!(c.parent_move(), *m);
        assert_eq!(c.policy(), *p);
        assert!(c.is_not_expanded());
        assert_eq!(c.visits(), 0);
    }
}

#[test]
fn expand_fails_without_room() {
    let mut t = Tree::new(6);
    let root = t.push_new(GameState::Ongoing);
    t.set_root(root);
    assert!(!t.expand(root, &vec![1, 2, 3], &vec![0, 0, 0]));
    assert_eq!(t.node(root).num_actions(), 0);
    assert!(t.node(root).actions().is_null());
}

#[test]
fn expand_rejects_unallocated_leaf() {
    let mut t = Tree::new(16);
    assert!(!t.expand(NodePtr::new(false, 4), &vec![1], &vec![0]));
    assert!(!t.expand(NodePtr::new(true, 0), &vec![1], &vec![0]));
}

#[test]
fn backprop_flips_results_and_releases_threads() {
    let mut t = Tree::new(16);
    let root = t.push_new(GameState::Ongoing);
    t.set_root(root);
    assert!(t.expand(root, &vec![1, 2], &vec![0, 0]));
    let child = t.node(root).actions().offset(1);
    assert!(t.expand(child, &vec![3], &vec![0]));
    let grandchild = t.node(child).actions();
    let path = vec![child, grandchild];
    for p in &path {
        t.enter(*p);
    }
    assert_eq!(t.node(child).threads(), 1);
    t.backprop(&path, Q_ONE);
    assert_eq!(t.node(grandchild).threads(), 0);
    assert_eq!(t.node(child).threads(), 0);
    assert_eq!(t.node(grandchild).q(), Q_ONE);
    assert_eq!(t.node(child).q(), 0);
    assert_eq!(t.node(root).q(), Q_ONE);
    assert_eq!(t.node(root).visits(), 1);
    assert_eq!(t.node(child).visits(), 1);
    assert_eq!(t.node(grandchild).visits(), 1);
}

#[test]
fn backprop_with_empty_path_updates_root_only() {
    let mut t = Tree::new(4);
    let root = t.push_new(GameState::Draw);
    t.set_root(root);
    t.backprop(&vec![], 1234);
    assert_eq!(t.node(root).visits(), 1);
    assert_eq!(t.node(root).q(), 1234);
    assert_eq!(t.node(root).threads(), 0);
}
