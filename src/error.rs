//! Errors of the generation engine.

use vstd::prelude::*;

verus! {

/// Why an operation of the generation engine failed.
#[derive(Debug, Clone, Copy, PartialEq, Eq, Structural)]
pub enum GenError {
    /// A generation number below 1 or above the latest generation.
    OutOfRange,
    /// The store holds no generation at all.
    NoGenerations,
    /// The named generation does not exist.
    DoesNotExist,
    /// There is no `current` generation recorded.
    NoCurrent,
    /// A generation name or pointer is not a decimal number.
    InvalidNumber,
    /// The next generation number does not fit in a `usize`.
    Overflow,
    /// No known schema could read a generation file.
    Deserialize,
}

} // verus!
