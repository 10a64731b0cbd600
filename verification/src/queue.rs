//! The bounded, ordered hand-off between the receive loop and the
//! processing workers. A full queue makes the producer wait (backpressure):
//! nothing is dropped, nothing overwritten, and items leave in the order
//! they entered.

use vstd::prelude::*;

verus! {

/// One unit of work: a datagram's source address and its decoded text.
pub struct Datagram {
    pub source: String,
    pub text: String,
}

/// What submitting an item to the queue did.
#[derive(Clone, Copy, Debug, PartialEq, Eq, Structural)]
pub enum SubmitOutcome {
    /// The item took a free slot.
    Accepted,
    /// The queue was full: the producer must wait for a consumer to free a
    /// slot and try again; the item was not dropped.
    Pending,
}

/// What submitting does to the queued items.
pub open spec fn spec_submit(items: Seq<Datagram>, cap: nat, d: Datagram) -> (Seq<Datagram>,
    SubmitOutcome) {
    if items.len() < cap {
        (items.push(d), SubmitOutcome::Accepted)
    } else {
        (items, SubmitOutcome::Pending)
    }
}

/// What taking the oldest item does to the queued items.
pub open spec fn spec_dequeue(items: Seq<Datagram>) -> (Seq<Datagram>, Option<Datagram>) {
    if items.len() == 0 {
        (items, None)
    } else {
        (items.drop_first(), Some(items[0]))
    }
}

/// A bounded first-in, first-out queue of datagrams.
pub struct IngestQueue {
    items: Vec<Datagram>,
    cap: usize,
}

impl IngestQueue {
    /// The queued items, oldest first.
    pub closed spec fn items(self) -> Seq<Datagram> {
        self.items@
    }

    /// The fixed capacity the queue was created with.
    pub closed spec fn cap(self) -> nat {
        self.cap as nat
    }

    pub open spec fn wf(self) -> bool {
        self.items().len() <= self.cap() && self.cap() >= 1
    }

    /// An empty queue of capacity `cap`.
    pub fn new(cap: usize) -> (q: IngestQueue)
        requires
            cap >= 1,
        ensures
            q.wf(),
            q.cap() == cap,
            q.items().len() == 0,
    {
        IngestQueue { items: Vec::new(), cap }
    }

    /// Offers an item: it is appended if a slot is free, and otherwise the
    /// producer is told to wait, with the queue unchanged.
    pub fn submit(&mut self, d: Datagram) -> (r: SubmitOutcome)
        requires
            old(self).wf(),
        ensures
            final(self).wf(),
            final(self).cap() == old(self).cap(),
            final(self).items() == spec_submit(old(self).items(), old(self).cap(), d).0,
            r == spec_submit(old(self).items(), old(self).cap(), d).1,
    {
        if self.items.len() < self.cap {
            self.items.push(d);
            SubmitOutcome::Accepted
        } else {
            SubmitOutcome::Pending
        }
    }

    /// Takes the oldest item, if any.
    pub fn dequeue(&mut self) -> (r: Option<Datagram>)
        requires
            old(self).wf(),
        ensures
            final(self).wf(),
            final(self).cap() == old(self).cap(),
            final(self).items() == spec_dequeue(old(self).items()).0,
            r == spec_dequeue(old(self).items()).1,
    {
        if self.items.len() == 0 {
            None
        } else {
            let d = self.items.remove(0);
            proof {
                assert(old(self).items@.remove(0) =~= old(self).items@.drop_first());
            }
            Some(d)
        }
    }

    /// How many items wait in the queue.
    pub fn len(&self) -> (n: usize)
        ensures
            n == self.items().len(),
    {
        self.items.len()
    }

    /// How many slots are still free: the gauge reported on every submit.
    pub fn remaining_capacity(&self) -> (n: usize)
        requires
            self.wf(),
        ensures
            n == self.cap() - self.items().len(),
    {
        self.cap - self.items.len()
    }
}

/// Backpressure: a full queue reports `Pending` and keeps every item, so
/// nothing is dropped; after a consumer takes one item, the retried
/// submission is accepted, and every other item is still present, in
/// order, with the new one at the tail.
pub proof fn lemma_backpressure(items: Seq<Datagram>, cap: nat, d: Datagram)
    requires
        items.len() == cap,
        cap >= 1,
    ensures
        spec_submit(items, cap, d).1 == SubmitOutcome::Pending,
        spec_submit(items, cap, d).0 == items,
        spec_dequeue(items).1 == Some(items[0]),
        spec_submit(spec_dequeue(items).0, cap, d).1 == SubmitOutcome::Accepted,
        spec_submit(spec_dequeue(items).0, cap, d).0 == items.drop_first().push(d),
{
}

} // verus!
