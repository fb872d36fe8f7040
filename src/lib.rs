//! A fixed-capacity FIFO queue built on the ticket protocol of a ring of
//! sequenced slots, with its protocol decisions exposed for concurrent shells.
use vstd::prelude::*;

pub mod protocol;
pub mod queue;

pub use protocol::{dequeue_step, enqueue_step, slot_index, valid_capacity, Step};
pub use queue::{Queue, QueueError};

verus! {

} // verus!
