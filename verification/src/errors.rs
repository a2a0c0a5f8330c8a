//! The legacy single-value store's error types.

use vstd::prelude::*;

verus! {

/// Returned when an operation names a key the store does not hold.
#[derive(Debug, PartialEq, Eq, Structural)]
pub struct KeyNotFoundError;

/// Returned when a listing starts past the store's last key.
#[derive(Debug, PartialEq, Eq, Structural)]
pub struct RangeError;

} // verus!
