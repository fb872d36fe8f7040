//! A bounded ring-buffer queue that runs the ticket protocol of `protocol`.
use vstd::prelude::*;
use vstd::arithmetic::div_mod::{lemma_small_mod, lemma_mod_add_multiples_vanish, lemma_mod_equivalence};
use crate::protocol::{
    capacity_ok, valid_capacity, enqueue_step, dequeue_step, slot_index, Step,
};

verus! {

/// One ring-buffer cell: its ticket and the value it may hold.
struct Node<T> {
    ticket: usize,
    data: Option<T>,
}

impl<T> Node<T> {
    fn new(ticket: usize) -> (r: Node<T>)
        ensures
            r.ticket == ticket,
            r.data is None,
    {
        Node { ticket, data: None }
    }
}

/// Why a queue could not be built.
#[derive(Debug, Clone, Copy, PartialEq, Eq, Structural)]
pub enum QueueError {
    /// The capacity is below two or not a power of two.
    InvalidCapacity,
}

/// A fixed-capacity FIFO queue over a ring of ticketed slots.
pub struct Queue<T> {
    nodes: Vec<Node<T>>,
    mask: usize,
    enqueue_index: usize,
    dequeue_index: usize,
}

/// Two positions of one window of `c` consecutive positions share a slot only
/// if they are equal.
proof fn lemma_window_distinct(p: int, q: int, c: int)
    requires
        0 <= p < q < p + c,
    ensures
        p % c != q % c,
{
    lemma_mod_equivalence(q, p, c);
    lemma_small_mod((q - p) as nat, c as nat);
}

impl<T> Queue<T> {
    /// The number of slots.
    pub closed spec fn capacity(&self) -> nat {
        self.nodes@.len()
    }

    /// How many values have been accepted over the queue's life.
    pub closed spec fn enqueued(&self) -> nat {
        self.enqueue_index as nat
    }

    spec fn slot(&self, p: int) -> Node<T> {
        self.nodes@[p % (self.nodes@.len() as int)]
    }

    /// The ring is in a state the ticket protocol can reach.
    pub closed spec fn wf(&self) -> bool {
        let c = self.nodes@.len() as int;
        let d = self.dequeue_index as int;
        let e = self.enqueue_index as int;
        &&& c <= usize::MAX
        &&& capacity_ok(c as usize)
        &&& self.mask == c - 1
        &&& d <= e <= d + c
        &&& e + c <= usize::MAX
        &&& forall|p: int| d <= p < e ==> (#[trigger] self.slot(p)).ticket == p + 1
            && self.slot(p).data is Some
        &&& forall|p: int| e <= p < d + c ==> (#[trigger] self.slot(p)).ticket == p
            && self.slot(p).data is None
    }
}

impl<T> View for Queue<T> {
    type V = Seq<T>;

    /// The values held, oldest first.
    closed spec fn view(&self) -> Seq<T> {
        Seq::new(
            (self.enqueue_index - self.dequeue_index) as nat,
            |k: int| self.slot(self.dequeue_index + k).data->Some_0,
        )
    }
}

impl<T> Queue<T> {
    /// Builds an empty queue of `bound` slots, slot `i` holding ticket `i`.
    pub fn new(bound: usize) -> (r: Result<Queue<T>, QueueError>)
        ensures
            r is Ok <==> capacity_ok(bound),
            r matches Err(e) ==> e == QueueError::InvalidCapacity,
            r matches Ok(q) ==> q.wf() && q.capacity() == bound && q@ == Seq::<T>::empty()
                && q.enqueued() == 0,
    {
        if !valid_capacity(bound) {
            return Err(QueueError::InvalidCapacity);
        }
        let mut nodes: Vec<Node<T>> = Vec::with_capacity(bound);
        let mut i: usize = 0;
        while i < bound
            invariant
                i <= bound,
                nodes@.len() == i,
                forall|j: int| 0 <= j < i ==> (#[trigger] nodes@[j]).ticket == j && nodes@[j].data is None,
            decreases bound - i,
        {
            nodes.push(Node::new(i));
            i += 1;
        }
        let q = Queue { nodes, mask: bound - 1, enqueue_index: 0, dequeue_index: 0 };
        assert forall|p: int| 0 <= p < bound implies (#[trigger] q.slot(p)).ticket == p
            && q.slot(p).data is None by {
            lemma_small_mod(p as nat, bound as nat);
        }
        assert(q@ =~= Seq::<T>::empty());
        Ok(q)
    }

    /// A well-formed queue never holds more values than it has slots.
    pub proof fn lemma_len_bounded(&self)
        requires
            self.wf(),
        ensures
            self@.len() <= self.capacity(),
    {
    }

    /// Offers `item` without waiting: `None` once it is in the queue, or the
    /// item itself, untouched, when every slot is taken.
    pub fn try_enqueue(&mut self, item: T) -> (r: Option<T>)
        requires
            old(self).wf(),
            old(self).enqueued() + old(self).capacity() < usize::MAX,
        ensures
            final(self).wf(),
            final(self).capacity() == old(self).capacity(),
            old(self)@.len() < old(self).capacity() ==> r is None
                && final(self)@ == old(self)@.push(item)
                && final(self).enqueued() == old(self).enqueued() + 1,
            old(self)@.len() == old(self).capacity() ==> r == Some(item)
                && final(self)@ == old(self)@
                && final(self).enqueued() == old(self).enqueued(),
    {
        let ghost c = self.nodes@.len() as int;
        let ghost d = self.dequeue_index as int;
        let ghost old_q = *self;
        let index = self.enqueue_index;
        let slot = slot_index(index, self.mask);
        let ticket = self.nodes[slot].ticket;
        proof {
            if index == d + c {
                lemma_mod_add_multiples_vanish(d, c);
                assert(old_q.slot(d).ticket == d + 1);
            } else {
                assert(old_q.slot(index as int).ticket == index);
            }
        }
        match enqueue_step(ticket, index) {
            Step::Claim => {
                self.enqueue_index = index + 1;
                self.nodes[slot] = Node { ticket: index + 1, data: Some(item) };
                proof {
                    let e = index as int;
                    assert forall|p: int| d <= p < e + 1 implies (#[trigger] self.slot(p)).ticket
                        == p + 1 && self.slot(p).data is Some by {
                        if p < e {
                            lemma_window_distinct(p, e, c);
                            assert(old_q.slot(p).ticket == p + 1);
                        }
                    }
                    assert forall|p: int| e + 1 <= p < d + c implies (#[trigger] self.slot(
                        p,
                    )).ticket == p && self.slot(p).data is None by {
                        lemma_window_distinct(e, p, c);
                        assert(old_q.slot(p).ticket == p);
                    }
                    assert forall|k: int| 0 <= k < old_q@.len() implies self@[k] == old_q@[k] by {
                        lemma_window_distinct(d + k, e, c);
                    }
                    assert(self@ =~= old_q@.push(item));
                }
                None
            },
            _ => Some(item),
        }
    }

    /// Takes the oldest value without waiting, or `None` when there is none.
    pub fn try_dequeue(&mut self) -> (r: Option<T>)
        requires
            old(self).wf(),
        ensures
            final(self).wf(),
            final(self).capacity() == old(self).capacity(),
            final(self).enqueued() == old(self).enqueued(),
            old(self)@.len() == 0 ==> r is None && final(self)@ == old(self)@,
            old(self)@.len() > 0 ==> r == Some(old(self)@[0])
                && final(self)@ == old(self)@.drop_first(),
    {
        let ghost c = self.nodes@.len() as int;
        let ghost e = self.enqueue_index as int;
        let ghost old_q = *self;
        let index = self.dequeue_index;
        let slot = slot_index(index, self.mask);
        let ticket = self.nodes[slot].ticket;
        proof {
            if index == e {
                assert(old_q.slot(index as int).ticket == index);
            } else {
                assert(old_q.slot(index as int).ticket == index + 1);
            }
        }
        match dequeue_step(ticket, index) {
            Step::Claim => {
                let mut taken = Node::new(index + self.mask + 1);
                std::mem::swap(&mut taken, &mut self.nodes[slot]);
                self.dequeue_index = index + 1;
                proof {
                    let d = index as int;
                    lemma_mod_add_multiples_vanish(d, c);
                    assert forall|p: int| d + 1 <= p < e implies (#[trigger] self.slot(p)).ticket
                        == p + 1 && self.slot(p).data is Some by {
                        lemma_window_distinct(d, p, c);
                        assert(old_q.slot(p).ticket == p + 1);
                    }
                    assert forall|p: int| e <= p < d + 1 + c implies (#[trigger] self.slot(
                        p,
                    )).ticket == p && self.slot(p).data is None by {
                        if p < d + c {
                            lemma_window_distinct(d, p, c);
                            assert(old_q.slot(p).ticket == p);
                        }
                    }
                    assert forall|k: int| 0 <= k < self@.len() implies self@[k]
                        == old_q@.drop_first()[k] by {
                        lemma_window_distinct(d, d + 1 + k, c);
                    }
                    assert(self@ =~= old_q@.drop_first());
                }
                taken.data
            },
            _ => None,
        }
    }

    /// Puts `item` at the back of the queue. With sole access a full queue
    /// would never drain, so there must be a free slot.
    pub fn enqueue(&mut self, item: T)
        requires
            old(self).wf(),
            old(self)@.len() < old(self).capacity(),
            old(self).enqueued() + old(self).capacity() < usize::MAX,
        ensures
            final(self).wf(),
            final(self).capacity() == old(self).capacity(),
            final(self)@ == old(self)@.push(item),
            final(self).enqueued() == old(self).enqueued() + 1,
    {
        let rejected = self.try_enqueue(item);
        assert(rejected is None);
    }

    /// Takes the value at the front of the queue. With sole access an empty
    /// queue would never fill, so there must be a value.
    pub fn dequeue(&mut self) -> (r: T)
        requires
            old(self).wf(),
            old(self)@.len() > 0,
        ensures
            final(self).wf(),
            final(self).capacity() == old(self).capacity(),
            final(self).enqueued() == old(self).enqueued(),
            r == old(self)@[0],
            final(self)@ == old(self)@.drop_first(),
    {
        self.try_dequeue().unwrap()
    }
}

/// No value is lost or duplicated: an accepted enqueue adds exactly its item to
/// the multiset of held values, and a dequeue removes exactly the value it
/// hands out.
pub proof fn lemma_no_loss<T>(held: Seq<T>, item: T)
    ensures
        held.push(item).to_multiset() == held.to_multiset().insert(item),
        held.len() > 0 ==> held.to_multiset() == held.drop_first().to_multiset().insert(held[0]),
{
    broadcast use vstd::seq_lib::group_to_multiset_ensures;

    if held.len() > 0 {
        assert(held.drop_first() =~= held.remove(0));
        assert(held.to_multiset().count(held[0]) > 0);
        assert(held.to_multiset().remove(held[0]).insert(held[0]) =~= held.to_multiset());
    }
}

/// The queue is first in, first out: a later enqueue does not change which
/// value comes out next, and it stays behind every value already held.
pub proof fn lemma_fifo<T>(held: Seq<T>, item: T)
    requires
        held.len() > 0,
    ensures
        held.push(item)[0] == held[0],
        held.push(item).drop_first() == held.drop_first().push(item),
{
    assert(held.push(item).drop_first() =~= held.drop_first().push(item));
}

/// An item enqueued into an empty queue is the next value out, and taking it
/// leaves the queue empty again.
pub proof fn lemma_round_trip<T>(held: Seq<T>, item: T)
    requires
        held.len() == 0,
    ensures
        held.push(item)[0] == item,
        held.push(item).drop_first() == held,
{
    assert(held.push(item).drop_first() =~= held);
}

} // verus!
