//! Grid coordinates.

use vstd::prelude::*;

verus! {

/// A grid address: column index first, row index second.
///
/// Two locations are equal exactly when both indices are equal.
#[derive(Clone, Copy, Debug, PartialEq, Eq, Structural, Hash)]
pub struct Location(pub usize, pub usize);

} // verus!
