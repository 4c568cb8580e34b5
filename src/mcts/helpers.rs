use vstd::prelude::*;

use crate::tree::node::{Node, Q_ONE};

verus! {

/// The longest horizon, in moves, that a time budget is spread over.
pub const MAX_MOVE_HORIZON: u64 = 30;

/// The number of moves the remaining time is spread over.
pub open spec fn horizon(movestogo: Option<u64>) -> u64 {
    match movestogo {
        Some(m) => if m < 1 { 1 } else if m > MAX_MOVE_HORIZON { MAX_MOVE_HORIZON } else { m },
        None => MAX_MOVE_HORIZON,
    }
}

/// The time that can be counted on over the horizon: the clock plus the
/// increments still to come, less a 10 ms overhead per move and two more,
/// and at least 1.
pub open spec fn spec_time_left(time: u64, increment: Option<u64>, mtg: u64) -> int {
    let inc: int = match increment {
        Some(i) => i as int,
        None => 0,
    };
    let t = time + inc * (mtg - 1) - 10 * (2 + mtg);
    if t < 1 { 1 } else { t }
}

/// The budget for this move: the clock split over the moves to go when that
/// count is given, else `heuristic`, and never more than `max_time_permille`
/// thousandths of the clock.
pub open spec fn spec_time(time: u64, movestogo: Option<u64>, max_time_permille: u64, heuristic: u128) -> int {
    let budget: int = match movestogo {
        Some(_) => (time / horizon(movestogo)) as int,
        None => heuristic as int,
    };
    let cap: int = time * max_time_permille / 1000;
    if budget < cap { budget } else { cap }
}

/// Pure functions that the selection step and the time manager use.
///
/// Values are fractions of `Q_ONE`.
pub struct SearchHelpers;

impl SearchHelpers {
    /// First-play urgency: the value of an unvisited child, the complement
    /// of its parent's value.
    pub fn get_fpu(parent: &Node) -> (r: u32)
        ensures
            r == Q_ONE - parent@.q,
    {
        Q_ONE - parent.q()
    }

    /// The predicted value of a child: its own mean once it has been
    /// visited, else the first-play urgency.
    pub fn get_action_value(action: &Node, fpu: u32) -> (r: u32)
        ensures
            r == (if action@.visits == 0 { fpu } else { action@.q }),
    {
        if action.visits() == 0 {
            fpu
        } else {
            action.q()
        }
    }

    /// The number of moves the remaining time is spread over: the moves to
    /// go, between 1 and 30, or 30 when that count is not given.
    pub fn move_horizon(movestogo: Option<u64>) -> (r: u64)
        ensures
            r == horizon(movestogo),
            1 <= r <= MAX_MOVE_HORIZON,
    {
        match movestogo {
            Some(m) => if m < 1 {
                1
            } else if m > MAX_MOVE_HORIZON {
                MAX_MOVE_HORIZON
            } else {
                m
            },
            None => MAX_MOVE_HORIZON,
        }
    }

    /// The time, in ms, that can be counted on over `mtg` moves.
    pub fn time_left(time: u64, increment: Option<u64>, mtg: u64) -> (r: u128)
        requires
            1 <= mtg <= MAX_MOVE_HORIZON,
        ensures
            r == spec_time_left(time, increment, mtg),
    {
        let inc: u128 = match increment {
            Some(i) => i as u128,
            None => 0,
        };
        proof {
            assert(inc * (mtg - 1) <= 0xFFFF_FFFF_FFFF_FFFFu128 * 29) by (nonlinear_arith)
                requires
                    inc <= 0xFFFF_FFFF_FFFF_FFFFu128,
                    1 <= mtg <= 30,
            ;
        }
        let total = time as u128 + inc * (mtg as u128 - 1);
        let overhead = 10 * (2 + mtg as u128);
        if total > overhead && total - overhead >= 1 {
            total - overhead
        } else {
            1
        }
    }

    /// The time budget, in ms, for this move.
    ///
    /// With `movestogo` the clock is split evenly over the horizon;
    /// without it the budget is `heuristic`, the log-time estimate the
    /// caller computed from `time_left`. Either way it is capped at
    /// `max_time_permille` thousandths of the clock.
    pub fn get_time(time: u64, movestogo: Option<u64>, max_time_permille: u64, heuristic: u128) -> (r: u128)
        ensures
            r == spec_time(time, movestogo, max_time_permille, heuristic),
    {
        let budget: u128 = match movestogo {
            Some(_) => (time / Self::move_horizon(movestogo)) as u128,
            None => heuristic,
        };
        proof {
            assert(time as int * max_time_permille as int <= 0xFFFF_FFFF_FFFF_FFFF * 0xFFFF_FFFF_FFFF_FFFF)
                by (nonlinear_arith)
                requires
                    time <= 0xFFFF_FFFF_FFFF_FFFFu64,
                    max_time_permille <= 0xFFFF_FFFF_FFFF_FFFFu64,
            ;
        }
        let cap = time as u128 * max_time_permille as u128 / 1000;
        if budget < cap {
            budget
        } else {
            cap
        }
    }

    /// The child to descend into: the first one of highest score.
    ///
    /// Scores are compared as unsigned integers; the bit patterns of
    /// non-negative 32-bit floats compare as the floats do.
    pub fn pick_action(scores: &Vec<u32>) -> (r: usize)
        requires
            scores@.len() >= 1,
        ensures
            r < scores@.len(),
            forall|j: int| 0 <= j < scores@.len() ==> scores@[j] <= scores@[r as int],
            forall|j: int| 0 <= j < r ==> scores@[j] < scores@[r as int],
    {
        let mut best: usize = 0;
        let mut i: usize = 1;
        while i < scores.len()
            invariant
                1 <= i <= scores@.len(),
                best < i,
                forall|j: int| 0 <= j < i ==> scores@[j] <= scores@[best as int],
                forall|j: int| 0 <= j < best ==> scores@[j] < scores@[best as int],
            decreases scores@.len() - i,
        {
            if scores[i] > scores[best] {
                best = i;
            }
            i = i + 1;
        }
        best
    }
}

} // verus!
