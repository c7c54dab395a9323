//! Building blocks of a memory-copy bandwidth benchmark: a source and a
//! destination buffer, a partitioner that cuts a buffer into disjoint contiguous
//! chunks (one per worker), the per-worker repeated copy, the equality check that
//! closes a run, and the byte counts that the bandwidth figures are made from.
use vstd::prelude::*;

pub mod buffers;
pub mod config;
pub mod copy;
pub mod partition;

verus! {

} // verus!
