//! The error taxonomy of the store engine.

use vstd::prelude::*;

verus! {

/// A classified failure of a store operation.
///
/// Reads on a missing, expired or wrong-typed key are not failures: they
/// return an explicit absence (`None`) instead.
#[derive(Clone, Copy, Debug, PartialEq, Eq, Structural)]
pub enum StoreError {
    /// The operation requires an existing key and the key is absent.
    NotFound,
    /// The operation requires a specific value variant (a scalar, a list,
    /// a numeric string) and the stored value does not satisfy it.
    InvalidType,
    /// A numeric update would leave the fixed-width signed integer range.
    Overflow,
}

} // verus!
