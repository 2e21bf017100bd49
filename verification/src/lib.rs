//! A small verified feed-forward neural network engine.
//!
//! Numbers are fixed-point values: an `i64` holds `value * 2^16`, and every
//! arithmetic step saturates at the `i64` range instead of overflowing.
//! The crate provides a dense matrix type with shape-checked arithmetic, a
//! deterministic xorshift generator with a permutation shuffle, and a layered
//! network that performs forward inference, backpropagation and full-batch
//! gradient-descent training.

pub mod fx;
pub mod matrix;
pub mod neuron;
pub mod rng;

use vstd::prelude::*;

verus! {

/// The two unrecoverable shape faults of the engine: incompatible or unequal
/// operand shapes, and a row index beyond a matrix's height. They indicate a
/// caller error in network construction, so no operation tries to recover
/// from them: the operation reports the fault and leaves its state unchanged.
#[derive(Clone, Copy, Debug, PartialEq, Eq, Structural)]
pub enum EngineError {
    ShapeMismatch,
    IndexOutOfRange,
}

} // verus!
