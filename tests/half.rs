use mcts_engine::tree::TreeHalf;
use mcts_engine::{GameState, NodePtr};

#[test]
fn new_half_is_empty() {
    let h = TreeHalf::new(8, true);
    assert_eq!(h.capacity(), 8);
    assert_eq!(h.used(), 0);
    assert!(h.half());
}

#[test]
fn push_new_hands_out_slots_in_order() {
    let mut h = TreeHalf::new(4, false);
    let states = [GameState::Ongoing, GameState::Draw, GameState::WhiteWin];
    for (k, s) in states.iter().enumerate() {
        let p = h.push_new(*s);
        assert!(!p.is_null());
        assert!(!p.half());
        assert_eq!(p.idx(), k);
    }
    assert_eq!(h.used(), 3);
    for (k, s) in states.iter().enumerate() {
        let n = h.node(NodePtr::new(false, k as u32));
        assert_eq!(n.state(), *s);
        assert_eq!(n.visits(), 0);
        assert_eq!(n.num_actions(), 0);
        assert_eq!(n.threads(), 0);
    }
    // the slot not handed out is untouched
    let last = h.node(NodePtr::new(false, 3));
    assert_eq!(last.state(), GameState::Ongoing);
    assert_eq!(last.visits(), 0);
}

#[test]
fn push_new_returns_null_when_full() {
    let mut h = TreeHalf::new(2, true);
    assert!(!h.push_new(GameState::Ongoing).is_null());
    let second = h.push_new(GameState::Ongoing);
    assert_eq!(second, NodePtr::new(true, 1));
    assert!(h.push_new(GameState::Ongoing).is_null());
    assert!(h.push_new(GameState::Ongoing).is_null());
    assert_eq!(h.used(), 2);
}

#[test]
fn empty_half_is_full_at_once() {
    let mut h = TreeHalf::new(0, false);
    assert!(h.push_new(GameState::Ongoing).is_null());
    assert_eq!(h.used(), 0);
}

#[test]
fn push_new_resets_a_reused_slot() {
    let mut h = TreeHalf::new(1, false);
    let p = h.push_new(GameState::Ongoing);
    {
        let n = h.node_mut(p);
        n.update(1000);
        n.inc_threads();
        *n.actions_mut() = NodePtr::new(false, 0);
        n.set_num_actions(1);
    }
    assert_eq!(h.node(p).visits(), 1);
    h.clear();
    assert_eq!(h.used(), 0);
    let again = h.push_new(GameState::BlackWin);
    assert_eq!(again, p);
    let n = h.node(again);
    assert_eq!(n.visits(), 0);
    assert_eq!(n.threads(), 0);
    assert_eq!(n.num_actions(), 0);
    assert!(n.actions().is_null());
    assert_eq!(n.state(), GameState::BlackWin);
}
