//! The ways an allocation request can fail.

use vstd::prelude::*;

verus! {

/// Why a request was turned down.
#[derive(Debug, Clone, Copy, PartialEq, Eq, Structural)]
pub enum AllocError {
    /// The request itself is malformed: its extent in bytes does not fit in
    /// a machine word.
    InvalidParam,
    /// The request does not fit in the gap that is currently free.
    NoMemory,
}

/// The outcome of a request.
pub type AllocResult<T> = Result<T, AllocError>;

} // verus!
