//! The core of a parallel Monte-Carlo tree search for chess: a node arena in
//! two halves with a bump allocator and subtree promotion, per-node search
//! statistics in fixed point, the transposition and correction-history
//! tables, and the pure decisions of selection, back-propagation, time
//! management and evaluation batching.

pub mod mcts;
pub mod networks;
pub mod state;
pub mod tree;

pub use state::GameState;
pub use tree::{Node, NodePtr, Tree};
