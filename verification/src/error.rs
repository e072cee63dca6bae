//! Error taxonomy of the model core.
//!
//! Rank or dimension mismatches surface as `Shape`; they are never retried.
//! Requesting an unconfigured scratch cache, scalings slot or classifier is a
//! programmer precondition violation and is excluded by `requires` clauses
//! rather than reported at run time, so no configuration variant is needed.

use vstd::prelude::*;

verus! {

/// Failure of a forward call: a rank or dimension mismatch, either from
/// malformed input or from cache state that cannot be broadcast against the
/// current sequence.
#[derive(Clone, Copy, Debug, PartialEq, Eq, Structural)]
pub enum ModelError {
    Shape,
}

} // verus!
