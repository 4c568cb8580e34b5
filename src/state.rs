use vstd::prelude::*;

verus! {

/// The outcome of a position as far as the search knows it.
#[derive(Clone, Copy, Debug, PartialEq, Eq, Structural)]
pub enum GameState {
    Ongoing,
    WhiteWin,
    BlackWin,
    Draw,
}

} // verus!
