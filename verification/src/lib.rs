//! A bump allocator for early boot: one contiguous address range serving
//! byte-granularity requests from its low end and page-granularity requests
//! from its high end.

pub mod align;
pub mod early;
pub mod error;
pub mod history;
pub mod region;

pub use early::EarlyAllocator;
pub use error::{AllocError, AllocResult};
