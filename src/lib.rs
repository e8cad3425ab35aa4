//! An unbounded FIFO queue stored as a chain of fixed-size blocks.
//!
//! Items live in slots; each block holds `BLOCK_CAP` slots, and cursors for
//! the head and the tail are packed indices (see [`index`]). The queue is
//! verified against its model, the sequence of items from head to tail
//! (see [`model`]).
pub mod backoff;
mod block;
pub mod cache_padded;
pub mod index;
pub mod model;
pub mod queue;
pub mod slot;

pub use backoff::Backoff;
pub use cache_padded::CachePadded;
pub use queue::{IntoIter, SegQueue};
pub use slot::Slot;
