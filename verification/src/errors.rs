//! Failure conditions surfaced by packed-array operations.

use vstd::prelude::*;

verus! {

/// Every recoverable or reported failure of the packed-array operation set.
///
/// Index-based operations report `OutOfBounds` and never clamp; range-based
/// operations clamp silently and have no error. The fixed-width byte codec
/// reports `InsufficientSpace` when the written or read region does not fit.
/// The variable-width value codec and the compression entry points report
/// `EncodeFailure`/`DecodeFailure` without further detail. A bulk extension
/// whose producer yields fewer elements than the lower bound it advertised
/// reports `ProducerContractViolation`.
#[derive(Clone, Copy, Debug, PartialEq, Eq, Structural)]
pub enum ArrayError {
    /// An index-based operation named an index outside the array.
    OutOfBounds { index: usize, length: usize },
    /// A fixed-width byte access does not fit before the end of the array.
    InsufficientSpace,
    /// A value could not be encoded.
    EncodeFailure,
    /// No valid value could be decoded.
    DecodeFailure,
    /// An element producer under-delivered on its advertised lower bound.
    ProducerContractViolation,
}

} // verus!
