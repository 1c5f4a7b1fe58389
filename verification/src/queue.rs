//! The bounded inbound queue in front of the dispatch actor.
//!
//! Requests are accepted in arrival order and handed out in the same order;
//! nothing is ever dropped or reordered. When the queue is at capacity a
//! submission is refused — the producer holds its request and offers it
//! again once a slot frees, which is the backpressure the service gives its
//! callers. (In the running service the surrounding runtime parks the
//! producer instead of spinning; the queue itself decides only acceptance.)

use vstd::prelude::*;

verus! {

/// A first-in-first-out queue with a fixed capacity.
pub struct InboundQueue<T> {
    items: Vec<T>,
    capacity: usize,
}

impl<T> View for InboundQueue<T> {
    type V = Seq<T>;

    closed spec fn view(&self) -> Seq<T> {
        self.items@
    }
}

impl<T> InboundQueue<T> {
    /// The fixed number of slots.
    pub closed spec fn capacity(&self) -> usize {
        self.capacity
    }

    /// Never holds more than its capacity.
    pub open spec fn wf(&self) -> bool {
        self@.len() <= self.capacity()
    }

    /// An empty queue with `capacity` slots.
    pub fn new(capacity: usize) -> (q: InboundQueue<T>)
        ensures
            q.wf(),
            q@ == Seq::<T>::empty(),
            q.capacity() == capacity,
    {
        InboundQueue { items: Vec::new(), capacity }
    }

    pub fn len(&self) -> (n: usize)
        ensures
            n == self@.len(),
    {
        self.items.len()
    }

    pub fn is_full(&self) -> (full: bool)
        ensures
            full == (self@.len() >= self.capacity()),
    {
        self.items.len() >= self.capacity
    }

    /// Offers one item. It is accepted — appended behind everything already
    /// queued — exactly when a slot is free; a refused item leaves the queue
    /// untouched, so nothing pending is dropped or reordered.
    pub fn try_push(&mut self, item: T) -> (accepted: bool)
        requires
            old(self).wf(),
        ensures
            final(self).wf(),
            final(self).capacity() == old(self).capacity(),
            accepted == (old(self)@.len() < old(self).capacity()),
            accepted ==> final(self)@ == old(self)@.push(item),
            !accepted ==> final(self)@ == old(self)@,
    {
        if self.items.len() < self.capacity {
            self.items.push(item);
            true
        } else {
            false
        }
    }

    /// Takes the oldest item, if any: first in, first out.
    pub fn pop(&mut self) -> (item: Option<T>)
        requires
            old(self).wf(),
        ensures
            final(self).wf(),
            final(self).capacity() == old(self).capacity(),
            old(self)@.len() == 0 ==> item is None && final(self)@ == old(self)@,
            old(self)@.len() > 0 ==> item == Some(old(self)@[0]) && final(self)@ == old(
                self,
            )@.drop_first(),
    {
        if self.items.len() == 0 {
            None
        } else {
            let item = self.items.remove(0);
            proof {
                assert(self.items@ =~= old(self)@.drop_first());
            }
            Some(item)
        }
    }
}

} // verus!
