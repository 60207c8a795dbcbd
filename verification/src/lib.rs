//! Memory-dense container primitives: a growable circular buffer of 24-bit
//! values packed three bytes per slot, and a dense array with tombstone
//! deletion and explicit compaction.

pub mod hole_array;
pub mod index_ring;
