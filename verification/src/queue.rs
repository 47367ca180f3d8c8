//! The ordered delivery queue: a bounded FIFO channel carrying playable
//! audio units from the synthesis stage to the playback stage. A full queue
//! refuses new units, which is the backpressure that keeps memory bounded
//! when synthesis outruns playback; a closed queue is the normal end-of-run
//! signal, not an error.

use vstd::prelude::*;

verus! {

/// The synthesized, playable result of exactly one chunk. It carries the
/// same sequence index as its source chunk; the index is the sole ordering
/// key downstream.
#[derive(Debug)]
pub struct AudioUnit {
    /// The sequence index of the chunk this audio was synthesized from.
    pub index: usize,
    /// The encoded audio bytes.
    pub data: Vec<u8>,
}

/// A bounded FIFO queue of audio units with a close signal.
pub struct DeliveryQueue {
    items: Vec<AudioUnit>,
    capacity: usize,
    closed: bool,
}

impl DeliveryQueue {
    /// The queued units, oldest first.
    pub closed spec fn contents(self) -> Seq<AudioUnit> {
        self.items@
    }

    /// The capacity the queue was created with.
    pub closed spec fn cap(self) -> nat {
        self.capacity as nat
    }

    /// Whether the producer has closed the queue.
    pub closed spec fn is_closed(self) -> bool {
        self.closed
    }

    /// The queue never holds more units than its capacity.
    pub open spec fn inv(self) -> bool {
        self.contents().len() <= self.cap() && self.cap() >= 1
    }

    /// Creates an open, empty queue of the given capacity.
    pub fn new(capacity: usize) -> (q: DeliveryQueue)
        requires
            capacity >= 1,
        ensures
            q.inv(),
            q.contents() == Seq::<AudioUnit>::empty(),
            q.cap() == capacity,
            !q.is_closed(),
    {
        DeliveryQueue { items: Vec::new(), capacity, closed: false }
    }

    /// Number of units currently queued.
    pub fn len(&self) -> (n: usize)
        ensures
            n == self.contents().len(),
    {
        self.items.len()
    }

    /// Whether the producer has closed the queue.
    pub fn closed(&self) -> (b: bool)
        ensures
            b == self.is_closed(),
    {
        self.closed
    }

    /// Offers a unit to the queue. A unit is accepted exactly when the
    /// queue is not full; a refused unit leaves the queue unchanged, and
    /// the producer must hold it and suspend until space is available.
    pub fn try_push(&mut self, unit: AudioUnit) -> (accepted: bool)
        requires
            old(self).inv(),
            !old(self).is_closed(),
        ensures
            final(self).inv(),
            final(self).cap() == old(self).cap(),
            !final(self).is_closed(),
            accepted == (old(self).contents().len() < old(self).cap()),
            accepted ==> final(self).contents() == old(self).contents().push(unit),
            !accepted ==> final(self).contents() == old(self).contents(),
    {
        if self.items.len() < self.capacity {
            self.items.push(unit);
            true
        } else {
            false
        }
    }

    /// Takes the oldest queued unit, if any.
    pub fn pop(&mut self) -> (r: Option<AudioUnit>)
        requires
            old(self).inv(),
        ensures
            final(self).inv(),
            final(self).cap() == old(self).cap(),
            final(self).is_closed() == old(self).is_closed(),
            old(self).contents().len() == 0 ==> r is None && final(self).contents() == old(
                self).contents(),
            old(self).contents().len() > 0 ==> r == Some(old(self).contents()[0]) && final(
                self).contents() == old(self).contents().drop_first(),
    {
        if self.items.len() == 0 {
            None
        } else {
            let unit = self.items.remove(0);
            proof {
                assert(old(self).contents().remove(0) =~= old(self).contents().drop_first());
            }
            Some(unit)
        }
    }

    /// Closes the queue: the producer is done, the consumer drains what
    /// remains and stops.
    pub fn close(&mut self)
        requires
            old(self).inv(),
        ensures
            final(self).inv(),
            final(self).cap() == old(self).cap(),
            final(self).contents() == old(self).contents(),
            final(self).is_closed(),
    {
        self.closed = true;
    }
}

/// Backpressure: however synthesis and playback interleave, a queue that
/// satisfies its invariant never buffers more units than the capacity it
/// was created with.
pub proof fn lemma_backpressure(q: DeliveryQueue)
    requires
        q.inv(),
    ensures
        q.contents().len() <= q.cap(),
{
}

} // verus!
