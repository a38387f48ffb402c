use vstd::prelude::*;
use crate::event::{Event, EventModel};

verus! {

/// Acknowledgement counter that a sink reports finished events to.
#[derive(Debug, Clone, Copy, PartialEq, Eq, Structural)]
pub enum Acker {
    /// Fire-and-forget: acknowledgements are dropped.
    Null,
    /// Counts the events acknowledged so far.
    Counter(usize),
}

impl Acker {
    /// Events acknowledged so far (always zero for `Null`).
    pub open spec fn spec_count(self) -> nat {
        match self {
            Acker::Null => 0,
            Acker::Counter(n) => n as nat,
        }
    }

    /// Events acknowledged so far.
    pub fn count(&self) -> (r: usize)
        ensures
            r == self.spec_count(),
    {
        match self {
            Acker::Null => 0,
            Acker::Counter(n) => *n,
        }
    }

    /// Records that `n` more events were finished.
    pub fn ack(&mut self, n: usize)
        requires
            old(self).spec_count() + n <= usize::MAX,
        ensures
            *old(self) == Acker::Null ==> *final(self) == Acker::Null,
            *old(self) != Acker::Null ==> *final(self) == Acker::Counter(
                (old(self).spec_count() + n) as usize,
            ),
    {
        match self {
            Acker::Null => {},
            Acker::Counter(c) => {
                *c = *c + n;
            },
        }
    }
}

/// Why an acknowledgement was refused.
#[derive(Debug, Clone, Copy, PartialEq, Eq, Structural)]
pub enum AckError {
    /// More events would be acknowledged than were taken out of the buffer.
    Excess,
}

/// The mathematical content of a `Buffer`.
pub struct BufferModel {
    pub capacity: nat,
    pub queue: Seq<EventModel>,
    pub delivered: nat,
    pub acked: nat,
}

/// A bounded queue in front of a sink, with its acknowledgement counter.
#[derive(Debug)]
pub struct Buffer {
    capacity: usize,
    queue: Vec<Event>,
    delivered: usize,
    acker: Acker,
}

impl View for Buffer {
    type V = BufferModel;

    closed spec fn view(&self) -> BufferModel {
        BufferModel {
            capacity: self.capacity as nat,
            queue: self.queue@.map_values(|e: Event| e@),
            delivered: self.delivered as nat,
            acked: self.acker.spec_count(),
        }
    }
}

impl Buffer {
    /// Occupancy within capacity, acknowledgements within deliveries, and
    /// every queued event well formed.
    pub closed spec fn wf(&self) -> bool {
        &&& self.queue.len() <= self.capacity
        &&& self.acker.spec_count() <= self.delivered
        &&& forall|i: int| 0 <= i < self.queue.len() ==> (#[trigger] self.queue@[i]).wf()
    }

    /// Whether acknowledgements are counted.
    pub closed spec fn counts_acks(&self) -> bool {
        self.acker != Acker::Null
    }

    /// An empty buffer that holds up to `capacity` events.
    pub fn new(capacity: usize, acker: Acker) -> (r: Buffer)
        requires
            acker.spec_count() == 0,
        ensures
            r.wf(),
            r@ == (BufferModel { capacity: capacity as nat, queue: Seq::empty(), delivered: 0, acked: 0 }),
            r.counts_acks() == (acker != Acker::Null),
    {
        let r = Buffer { capacity, queue: Vec::new(), delivered: 0, acker };
        assert(r@.queue =~= Seq::<EventModel>::empty());
        r
    }

    /// Whether one more event fits.
    pub fn has_room(&self) -> (r: bool)
        ensures
            r == (self@.queue.len() < self@.capacity),
    {
        self.queue.len() < self.capacity
    }

    /// Number of queued events.
    pub fn len(&self) -> (r: usize)
        ensures
            r == self@.queue.len(),
    {
        self.queue.len()
    }

    /// Events acknowledged so far.
    pub fn acked(&self) -> (r: usize)
        ensures
            r == self@.acked,
    {
        self.acker.count()
    }

    /// Events taken out of the buffer so far.
    pub fn delivered(&self) -> (r: usize)
        ensures
            r == self@.delivered,
    {
        self.delivered
    }

    /// Queues an event; a full buffer hands it back untouched.
    pub fn try_push(&mut self, event: Event) -> (r: Result<(), Event>)
        requires
            old(self).wf(),
            event.wf(),
        ensures
            final(self).wf(),
            final(self).counts_acks() == old(self).counts_acks(),
            old(self)@.queue.len() < old(self)@.capacity ==> r is Ok && final(self)@ == (BufferModel {
                queue: old(self)@.queue.push(event@),
                ..old(self)@
            }),
            old(self)@.queue.len() >= old(self)@.capacity ==> r is Err && r->Err_0@ == event@
                && final(self)@ == old(self)@,
    {
        if self.queue.len() < self.capacity {
            let ghost before = self.queue@;
            self.queue.push(event);
            assert(self@.queue =~= before.map_values(|e: Event| e@).push(event@));
            Ok(())
        } else {
            Err(event)
        }
    }

    /// Takes the oldest event out, counting it as delivered.
    pub fn pop(&mut self) -> (r: Option<Event>)
        requires
            old(self).wf(),
            old(self)@.delivered < usize::MAX,
        ensures
            final(self).wf(),
            final(self).counts_acks() == old(self).counts_acks(),
            old(self)@.queue.len() == 0 ==> r is None && final(self)@ == old(self)@,
            old(self)@.queue.len() > 0 ==> r is Some && r->0@ == old(self)@.queue[0] && r->0.wf()
                && final(self)@ == (BufferModel {
                queue: old(self)@.queue.drop_first(),
                delivered: old(self)@.delivered + 1,
                ..old(self)@
            }),
    {
        if self.queue.len() == 0 {
            None
        } else {
            let ghost before = self.queue@;
            let e = self.queue.remove(0);
            self.delivered = self.delivered + 1;
            assert(self@.queue =~= before.map_values(|e: Event| e@).drop_first());
            assert forall|i: int| 0 <= i < self.queue.len() implies (#[trigger] self.queue@[i]).wf() by {
                assert(self.queue@[i] == before[i + 1]);
            }
            Some(e)
        }
    }

    /// Acknowledges `n` finished events. Refused when that would count more
    /// acknowledgements than deliveries.
    pub fn ack(&mut self, n: usize) -> (r: Result<(), AckError>)
        requires
            old(self).wf(),
        ensures
            final(self).wf(),
            final(self).counts_acks() == old(self).counts_acks(),
            r is Err <==> old(self)@.acked + n > old(self)@.delivered,
            r is Err ==> final(self)@ == old(self)@,
            r is Ok && old(self).counts_acks() ==> final(self)@ == (BufferModel {
                acked: (old(self)@.acked + n) as nat,
                ..old(self)@
            }),
            r is Ok && !old(self).counts_acks() ==> final(self)@ == old(self)@,
    {
        let count = self.acker.count();
        if n > self.delivered - count {
            Err(AckError::Excess)
        } else {
            self.acker.ack(n);
            Ok(())
        }
    }
}

} // verus!
