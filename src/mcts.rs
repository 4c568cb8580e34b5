pub mod corrhist;
pub mod evaluator;
pub mod helpers;

pub use corrhist::CorrHistTable;
pub use evaluator::{evaluator_step, EvaluatorAction};
pub use helpers::SearchHelpers;
