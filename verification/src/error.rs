//! The faults that the operations report.

use vstd::prelude::*;

verus! {

/// Why an operation gave no result.
#[derive(Clone, Copy, Debug, PartialEq, Eq, Structural)]
pub enum Error {
    /// None of the numbers that were drawn would do: no probable prime, or no
    /// generator, was found in the allowed number of attempts.
    GenerationFailure,
    /// A number that had to be inverted has no inverse modulo the prime.
    InversionFailure,
}

} // verus!
