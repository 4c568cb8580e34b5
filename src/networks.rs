pub mod accumulator;

pub use accumulator::Accumulator;
