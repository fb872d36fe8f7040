//! The ticket protocol of the ring buffer, as pure decisions on counters.
//!
//! A logical position `p` lives in slot `p % capacity`. The slot's ticket is
//! `p` while the slot is free for an enqueue at `p`, `p + 1` once a value for
//! `p` is published, and `p + capacity` after that value was taken.
use vstd::prelude::*;

verus! {

/// The capacity rule: at least two slots, and a power of two.
pub open spec fn capacity_ok(c: usize) -> bool {
    c >= 2 && c & (c - 1) as usize == 0
}

/// What a claimant does after reading the ticket of the slot at its position.
#[derive(Debug, Clone, Copy, PartialEq, Eq, Structural)]
pub enum Step {
    /// The slot is ready for this position: try to claim it.
    Claim,
    /// The slot is not ready yet: full for a producer, empty for a consumer.
    Blocked,
    /// The position is behind the cursor: reload the cursor and retry.
    Stale,
}

/// A producer at `pos` may claim a slot whose ticket is `pos`.
pub open spec fn enqueue_step_spec(ticket: int, pos: int) -> Step {
    if ticket == pos {
        Step::Claim
    } else if ticket < pos {
        Step::Blocked
    } else {
        Step::Stale
    }
}

/// A consumer at `pos` may claim a slot whose ticket is `pos + 1`.
pub open spec fn dequeue_step_spec(ticket: int, pos: int) -> Step {
    if ticket == pos + 1 {
        Step::Claim
    } else if ticket < pos + 1 {
        Step::Blocked
    } else {
        Step::Stale
    }
}

/// Whether `capacity` is an acceptable number of slots.
pub fn valid_capacity(capacity: usize) -> (r: bool)
    ensures
        r == capacity_ok(capacity),
{
    capacity >= 2 && capacity & (capacity - 1) == 0
}

/// The producer's decision for a slot holding `ticket`, seen from `pos`.
pub fn enqueue_step(ticket: usize, pos: usize) -> (r: Step)
    ensures
        r == enqueue_step_spec(ticket as int, pos as int),
{
    if ticket == pos {
        Step::Claim
    } else if ticket < pos {
        Step::Blocked
    } else {
        Step::Stale
    }
}

/// The consumer's decision for a slot holding `ticket`, seen from `pos`.
pub fn dequeue_step(ticket: usize, pos: usize) -> (r: Step)
    ensures
        r == dequeue_step_spec(ticket as int, pos as int),
{
    if ticket <= pos {
        Step::Blocked
    } else if ticket - 1 == pos {
        Step::Claim
    } else {
        Step::Stale
    }
}

/// The slot of logical position `pos` in a ring of `mask + 1` slots.
pub fn slot_index(pos: usize, mask: usize) -> (r: usize)
    requires
        mask < usize::MAX,
        capacity_ok((mask + 1) as usize),
    ensures
        r == pos % (mask + 1) as usize,
        r <= mask,
{
    pos % (mask + 1)
}

} // verus!
