//! Mersenne Twister pseudo-random number generators, in a 32-bit variant
//! (MT19937) and a 64-bit variant (MT19937-64).
//!
//! Each engine is specified by a mathematical model: a sequence of state
//! words and a cursor. Seeding, the block regeneration ("twist") and the
//! output tempering are spec functions over that model, and every
//! executable operation is proved to follow them exactly.
//!
//! The two widths live in two modules of the same shape, so that each model
//! states its recurrences over its own machine word with the operators
//! written out.
use vstd::prelude::*;

pub mod mt32;
pub mod mt64;

pub use crate::mt32::MTRng32;
pub use crate::mt64::MTRng64;

verus! {

/// The error returned when an engine is seeded with an empty key.
#[derive(Clone, Copy, Debug, PartialEq, Eq, Structural)]
pub enum SeedError {
    /// Array seeding needs at least one key word.
    InvalidSeed,
}

} // verus!
