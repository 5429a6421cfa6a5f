//! The error reported by the indicator functions.

use vstd::prelude::*;

verus! {

/// Why an indicator could not be computed.
#[derive(Clone, Copy, Debug, PartialEq, Eq)]
pub enum IndicatorError {
    /// The arguments do not describe a series: the price columns differ in
    /// length, or a period is zero.
    InvalidInput,
}

} // verus!
