use mcts_engine::tree::node::{POLICY_ONE, Q_ONE};
use mcts_engine::{GameState, Node, NodePtr};

#[test]
fn node_ptr_packs_half_and_index() {
    let p = NodePtr::new(true, 5);
    assert!(p.half());
    assert_eq!(p.idx(), 5);
    assert_eq!(p.inner(), 0x8000_0005);
    let q = NodePtr::new(false, 0x7FFF_FFFE);
    assert!(!q.half());
    assert_eq!(q.idx(), 0x7FFF_FFFE);
    assert!(!q.is_null());
}

#[test]
fn node_ptr_null_is_all_ones() {
    let n = NodePtr::null();
    assert!(n.is_null());
    assert_eq!(n.inner(), u32::MAX);
    assert_eq!(NodePtr::from_raw(u32::MAX), n);
    assert!(!NodePtr::from_raw(0).is_null());
}

#[test]
fn node_ptr_round_trips_raw() {
    let p = NodePtr::from_raw(0x8000_0123);
    assert_eq!(p.inner(), 0x8000_0123);
    assert!(p.half());
    assert_eq!(p.idx(), 0x123);
}

#[test]
fn node_ptr_offset_moves_within_half() {
    let p = NodePtr::new(true, 10);
    let c = p.offset(3);
    assert!(c.half());
    assert_eq!(c.idx(), 13);
    assert_eq!(NodePtr::from_raw(u32::MAX).offset(1).inner(), 0);
}

#[test]
fn new_node_is_fresh() {
    let n = Node::new(GameState::Draw);
    assert_eq!(n.state(), GameState::Draw);
    assert!(n.is_terminal());
    assert_eq!(n.num_actions(), 0);
    assert!(!n.has_children());
    assert!(n.actions().is_null());
    assert_eq!(n.visits(), 0);
    assert_eq!(n.threads(), 0);
    assert_eq!(n.q(), 0);
    assert_eq!(n.sq_q(), 0);
    assert_eq!(n.var(), 0);
    assert_eq!(n.policy(), 0);
    assert_eq!(n.parent_move(), 0);
    assert_eq!(n.gini_impurity(), 0);
    assert!(!n.is_not_expanded());
    assert!(Node::new(GameState::Ongoing).is_not_expanded());
}

#[test]
fn update_keeps_running_means() {
    let mut n = Node::new(GameState::Ongoing);
    let q1 = n.update(Q_ONE);
    assert_eq!(q1, Q_ONE);
    assert_eq!(n.visits(), 1);
    assert_eq!(n.sq_q(), Q_ONE);
    let q2 = n.update(0);
    // (Q_ONE * 1 + 0) / 2, rounded down
    assert_eq!(q2, Q_ONE / 2);
    assert_eq!(n.q(), 0x7FFF_FFFF);
    assert_eq!(n.sq_q(), 0x7FFF_FFFF);
    assert_eq!(n.visits(), 2);
}

#[test]
fn update_with_half_result() {
    let mut n = Node::new(GameState::Ongoing);
    let half: u32 = 0x8000_0000;
    assert_eq!(n.update(half), half);
    // half * half / Q_ONE = 2^62 / (2^32 - 1), rounded down
    let sq = ((half as u64) * (half as u64) / (Q_ONE as u64)) as u32;
    assert_eq!(sq, 0x4000_0000);
    assert_eq!(n.sq_q(), sq);
}

#[test]
fn values_stay_in_unit_range() {
    let mut n = Node::new(GameState::Ongoing);
    let results = [Q_ONE, 0, Q_ONE, Q_ONE / 3, 12345, Q_ONE - 1, 0, 0];
    for r in results {
        let q = n.update(r);
        assert!(q <= Q_ONE);
        assert!(n.sq_q() <= Q_ONE);
        assert!(n.var() <= n.sq_q());
    }
    assert_eq!(n.visits(), 8);
}

#[test]
fn var_is_mean_square_less_squared_mean() {
    let mut n = Node::new(GameState::Ongoing);
    n.update(Q_ONE);
    n.update(0);
    // q = sq_q = 0x7FFF_FFFF; q^2 / Q_ONE = 0x3FFF_FFFF (rounded down)
    let q = n.q() as u64;
    let expected = n.sq_q() as u64 - q * q / (Q_ONE as u64);
    assert_eq!(n.var() as u64, expected);
    assert_eq!(n.var(), 0x4000_0000);
    let mut same = Node::new(GameState::Ongoing);
    same.update(Q_ONE / 2);
    same.update(Q_ONE / 2);
    assert!(same.var() <= 1);
}

#[test]
fn threads_return_to_zero_when_paired() {
    let mut n = Node::new(GameState::Ongoing);
    n.inc_threads();
    n.inc_threads();
    n.dec_threads();
    n.inc_threads();
    assert_eq!(n.threads(), 2);
    n.dec_threads();
    n.dec_threads();
    assert_eq!(n.threads(), 0);
}

#[test]
fn threads_wrap_like_an_atomic() {
    let mut n = Node::new(GameState::Ongoing);
    n.dec_threads();
    assert_eq!(n.threads(), u16::MAX);
    n.inc_threads();
    assert_eq!(n.threads(), 0);
}

#[test]
fn copy_and_copy_back_is_identical() {
    let mut a = Node::new(GameState::Ongoing);
    a.set_new(0x1234, POLICY_ONE / 4);
    a.update(Q_ONE / 3);
    a.update(Q_ONE);
    a.inc_threads();
    a.set_gini_impurity(0x3F00_0000);
    *a.actions_mut() = NodePtr::new(false, 7);
    a.set_num_actions(3);

    let mut b = Node::new(GameState::Draw);
    *b.actions_mut() = NodePtr::new(true, 40);
    b.copy_from(&a);
    assert_eq!(b.visits(), a.visits());
    assert_eq!(b.q(), a.q());
    assert_eq!(b.sq_q(), a.sq_q());
    assert_eq!(b.policy(), a.policy());
    assert_eq!(b.parent_move(), 0x1234);
    assert_eq!(b.state(), GameState::Ongoing);
    assert_eq!(b.threads(), 1);
    assert_eq!(b.actions(), NodePtr::new(true, 40));
    assert_eq!(b.num_actions(), 0);

    let mut back = Node::new(GameState::WhiteWin);
    back.copy_from(&b);
    assert_eq!(back.visits(), a.visits());
    assert_eq!(back.q(), a.q());
    assert_eq!(back.sq_q(), a.sq_q());
    assert_eq!(back.policy(), a.policy());
    assert_eq!(back.parent_move(), a.parent_move());
    assert_eq!(back.gini_impurity(), a.gini_impurity());
}

#[test]
fn clear_keeps_move_and_prior() {
    let mut n = Node::new(GameState::BlackWin);
    n.set_new(77, 500);
    n.set_state(GameState::BlackWin);
    n.update(Q_ONE);
    n.inc_threads();
    *n.actions_mut() = NodePtr::new(false, 3);
    n.set_num_actions(2);
    assert!(n.has_children());
    n.clear();
    assert_eq!(n.state(), GameState::Ongoing);
    assert_eq!(n.visits(), 0);
    assert_eq!(n.q(), 0);
    assert_eq!(n.threads(), 0);
    assert!(n.actions().is_null());
    assert_eq!(n.num_actions(), 0);
    assert_eq!(n.parent_move(), 77);
    assert_eq!(n.policy(), 500);
    assert!(n.is_not_expanded());
}

#[test]
fn set_new_resets_and_stores_edge() {
    let mut n = Node::new(GameState::Draw);
    n.update(Q_ONE);
    n.set_new(9, POLICY_ONE);
    assert_eq!(n.state(), GameState::Ongoing);
    assert_eq!(n.visits(), 0);
    assert_eq!(n.parent_move(), 9);
    assert_eq!(n.policy(), POLICY_ONE);
}

#[test]
fn clear_actions_forgets_children() {
    let mut n = Node::new(GameState::Ongoing);
    *n.actions_mut() = NodePtr::new(true, 1);
    n.set_num_actions(255);
    assert_eq!(n.num_actions(), 255);
    n.clear_actions();
    assert!(n.actions().is_null());
    assert!(!n.has_children());
}

#[test]
fn node_ptr_add_matches_offset() {
    let p = NodePtr::new(false, 100);
    assert_eq!(p + 5, NodePtr::new(false, 105));
    assert_eq!(p + 5, p.offset(5));
}
