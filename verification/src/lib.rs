//! A fixed-capacity allocator of contiguous, aligned runs of units, tracked by
//! one occupancy bit per unit.

pub mod allocator;
pub mod bits;
pub mod guarantees;
pub mod model;

pub use allocator::BitmapVectorAllocator;
pub use model::{Occupancy, BITMAP_SIZE};
