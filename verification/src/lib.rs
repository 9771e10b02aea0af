//! A byte-granularity bump allocator over one contiguous memory region.
//!
//! The allocator hands out aligned byte ranges by advancing a cursor through
//! the region. It keeps no record of individual blocks: it counts the
//! allocations that are outstanding, and takes the whole region back when the
//! count returns to zero.
//!
//! * [`arena`] holds the mathematical model of the allocator's state and of
//!   each operation on it.
//! * [`simple`] holds the executable allocator, whose contracts are stated
//!   over that model.
//! * [`trace`] holds sequences of calls on the model, and what holds of every
//!   such sequence.
//! * [`error`] holds the two ways in which a request can fail.

pub mod arena;
pub mod error;
pub mod simple;
pub mod trace;

pub use arena::Arena;
pub use error::{AllocError, AllocResult};
pub use simple::SimpleByteAllocator;
