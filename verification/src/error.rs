//! The ways in which a record can be malformed.

use vstd::prelude::*;

verus! {

/// Why the runs of a record could not be summarised.
#[derive(Clone, Copy, Debug, PartialEq, Eq, Structural)]
pub enum CigarError {
    /// A run length, a total or a run count does not fit in a signed 64-bit
    /// integer.
    Overflow,
}

} // verus!
