use vstd::prelude::*;

verus! {

/// The largest number of requests an evaluator takes off the queue at once.
pub const MAX_BATCH: usize = 16;

/// What an evaluator thread does next.
#[derive(Clone, Copy, Debug, PartialEq, Eq, Structural)]
pub enum EvaluatorAction {
    /// Block until a request arrives or shutdown is signalled.
    Wait,
    /// Leave the loop: shutdown was signalled and nothing is left to do.
    Exit,
    /// Take this many requests off the front of the queue and evaluate them.
    Take(usize),
}

/// Decides an evaluator thread's next step from the number of queued requests
/// and the shutdown flag. Requests still queued at shutdown are served first.
pub fn evaluator_step(queued: usize, shutdown: bool, batch_cap: usize) -> (r: EvaluatorAction)
    requires
        batch_cap >= 1,
    ensures
        queued == 0 && !shutdown ==> r == EvaluatorAction::Wait,
        queued == 0 && shutdown ==> r == EvaluatorAction::Exit,
        queued > 0 ==> r == EvaluatorAction::Take(if queued < batch_cap { queued } else { batch_cap }),
{
    if queued == 0 {
        if shutdown {
            EvaluatorAction::Exit
        } else {
            EvaluatorAction::Wait
        }
    } else if queued < batch_cap {
        EvaluatorAction::Take(queued)
    } else {
        EvaluatorAction::Take(batch_cap)
    }
}

} // verus!
