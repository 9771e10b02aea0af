//! The failures that the allocator reports.

use vstd::prelude::*;

verus! {

/// Why a request to the allocator was turned down.
#[derive(Debug, Clone, Copy, PartialEq, Eq, Structural)]
pub enum AllocError {
    /// A block offered to the allocator does not start where the managed
    /// region ends.
    InvalidParam,
    /// The remaining part of the region cannot hold the requested block.
    NoMemory,
}

/// The result of a request to the allocator.
pub type AllocResult<T = ()> = Result<T, AllocError>;

} // verus!
