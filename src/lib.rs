//! A fixed-capacity single-producer / single-consumer ring buffer, with two
//! interchangeable storage strategies: a direct array of optional cells and a
//! slab pool addressed through a per-slot index table.
//!
//! Each buffer is a verified bounded FIFO queue whose contents are viewed as a
//! `Seq` of values, oldest first; `model` gives the abstract queue that both
//! buffers follow, and `laws` proves its properties.
use vstd::prelude::*;

pub mod model;
pub mod ring;
pub mod array;
pub mod pool;
pub mod slab_buffer;
pub mod laws;

pub use array::ArrayBuffer;
pub use model::{Op, Outcome};
pub use slab_buffer::SlabBuffer;

verus! {

/// The slab-backed ring buffer under its general name.
pub type RingBuffer<const N: usize> = SlabBuffer<N>;

} // verus!
