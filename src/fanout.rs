use vstd::prelude::*;
use crate::buffer::{Buffer, BufferModel};
use crate::diff::{find_key, has_key, lemma_find_key_bounds, lemma_find_key_last};
use crate::event::{Event, EventModel};

verus! {

/// Named consumers with their buffers, in the order they were attached.
pub type Outputs = Seq<(Seq<char>, BufferModel)>;

/// Every consumer has room for one more event.
pub open spec fn all_have_room(m: Outputs) -> bool {
    forall|i: int| 0 <= i < m.len() ==> (#[trigger] m[i]).1.queue.len() < m[i].1.capacity
}

/// Every consumer receives `e` at the end of its queue.
pub open spec fn deliver(m: Outputs, e: EventModel) -> Outputs {
    Seq::new(m.len(), |i: int| (m[i].0, BufferModel { queue: m[i].1.queue.push(e), ..m[i].1 }))
}

/// The events of `es` delivered one after another.
pub open spec fn deliver_all(m: Outputs, es: Seq<EventModel>) -> Outputs
    decreases es.len(),
{
    if es.len() == 0 {
        m
    } else {
        deliver(deliver_all(m, es.drop_last()), es.last())
    }
}

/// Events sent in order through a fanout reach every attached consumer, each
/// consumer receiving all of them, once each, in the order they were sent.
pub proof fn lemma_fanout_delivers_in_order(m: Outputs, es: Seq<EventModel>)
    ensures
        deliver_all(m, es).len() == m.len(),
        forall|i: int|
            0 <= i < m.len() ==> (#[trigger] deliver_all(m, es)[i]).0 == m[i].0
                && deliver_all(m, es)[i].1.queue == m[i].1.queue + es
                && deliver_all(m, es)[i].1.capacity == m[i].1.capacity,
    decreases es.len(),
{
    if es.len() > 0 {
        lemma_fanout_delivers_in_order(m, es.drop_last());
        assert forall|i: int| 0 <= i < m.len() implies (#[trigger] deliver_all(m, es)[i]).0 == m[i].0
            && deliver_all(m, es)[i].1.queue == m[i].1.queue + es
            && deliver_all(m, es)[i].1.capacity == m[i].1.capacity by {
            let prev = deliver_all(m, es.drop_last());
            assert(prev[i].1.queue == m[i].1.queue + es.drop_last());
            assert(m[i].1.queue + es =~= (m[i].1.queue + es.drop_last()).push(es.last()));
        }
    }
}

/// Why a fanout refused a change of its consumers.
#[derive(Debug, Clone, Copy, PartialEq, Eq, Structural)]
pub enum FanoutError {
    /// A consumer of that name is already attached.
    Duplicate,
}

/// A one-to-many multiplexer: every event sent is copied to each consumer.
#[derive(Debug)]
pub struct Fanout {
    names: Vec<String>,
    buffers: Vec<Buffer>,
}

impl View for Fanout {
    type V = Outputs;

    closed spec fn view(&self) -> Outputs {
        Seq::new(self.names.len() as nat, |i: int| (self.names@[i]@, self.buffers@[i]@))
    }
}

impl Fanout {
    /// The name and buffer lists line up and every buffer is well formed.
    pub closed spec fn wf(&self) -> bool {
        &&& self.names.len() == self.buffers.len()
        &&& forall|i: int| 0 <= i < self.buffers.len() ==> (#[trigger] self.buffers@[i]).wf()
    }

    /// A fanout with no consumers.
    pub fn new() -> (r: Fanout)
        ensures
            r.wf(),
            r@ == Outputs::empty(),
    {
        let r = Fanout { names: Vec::new(), buffers: Vec::new() };
        assert(r@ =~= Outputs::empty());
        r
    }

    /// Number of attached consumers.
    pub fn len(&self) -> (r: usize)
        requires
            self.wf(),
        ensures
            r == self@.len(),
    {
        self.names.len()
    }

    fn position(&self, name: &String) -> (r: Option<usize>)
        requires
            self.wf(),
        ensures
            r is None <==> !has_key(self@, name@),
            r is Some ==> r->0 == find_key(self@, name@) && r->0 < self@.len(),
    {
        let ghost s = self@;
        let mut i: usize = self.names.len();
        while i > 0
            invariant
                i <= self.names.len(),
                s == self@,
                self.wf(),
                forall|j: int| i <= j < s.len() ==> s[j].0 != name@,
            decreases i,
        {
            i = i - 1;
            if self.names[i] == *name {
                proof {
                    lemma_find_key_last(s, name@, i as int);
                }
                return Some(i);
            }
        }
        proof {
            lemma_find_key_last(s, name@, -1);
        }
        None
    }

    /// Attaches a consumer. A name already attached is refused: use `replace`.
    pub fn add(&mut self, name: String, buffer: Buffer) -> (r: Result<(), FanoutError>)
        requires
            old(self).wf(),
            buffer.wf(),
        ensures
            final(self).wf(),
            r is Err <==> has_key(old(self)@, name@),
            r is Err ==> final(self)@ == old(self)@,
            r is Ok ==> final(self)@ == old(self)@.push((name@, buffer@)),
    {
        if self.position(&name).is_some() {
            return Err(FanoutError::Duplicate);
        }
        let ghost before = self@;
        self.names.push(name);
        self.buffers.push(buffer);
        assert(self@ =~= before.push((name@, buffer@)));
        Ok(())
    }

    /// Swaps the buffer of an attached consumer, handing back the old one
    /// with whatever it still holds. An unknown name hands `buffer` back.
    pub fn replace(&mut self, name: &String, buffer: Buffer) -> (r: Result<Buffer, Buffer>)
        requires
            old(self).wf(),
            buffer.wf(),
        ensures
            final(self).wf(),
            r is Err <==> !has_key(old(self)@, name@),
            r is Err ==> final(self)@ == old(self)@ && r->Err_0@ == buffer@,
            r is Ok ==> final(self)@ == old(self)@.update(find_key(old(self)@, name@), (name@, buffer@))
                && r->Ok_0@ == old(self)@[find_key(old(self)@, name@)].1 && r->Ok_0.wf(),
    {
        match self.position(name) {
            None => Err(buffer),
            Some(i) => {
                let ghost before = self@;
                proof {
                    lemma_find_key_bounds(before, name@);
                }
                let old_buffer = self.buffers.remove(i);
                self.buffers.insert(i, buffer);
                assert(self@ =~= before.update(i as int, (name@, buffer@)));
                assert forall|j: int| 0 <= j < self.buffers.len() implies (#[trigger] self.buffers@[j]).wf() by {
                    if j != i {
                        assert(self.buffers@[j]@ == before[j].1);
                    }
                }
                Ok(old_buffer)
            },
        }
    }

    /// Detaches a consumer, handing back its buffer with whatever it holds.
    pub fn remove(&mut self, name: &String) -> (r: Option<Buffer>)
        requires
            old(self).wf(),
        ensures
            final(self).wf(),
            r is None <==> !has_key(old(self)@, name@),
            r is None ==> final(self)@ == old(self)@,
            r is Some ==> final(self)@ == old(self)@.remove(find_key(old(self)@, name@))
                && r->0@ == old(self)@[find_key(old(self)@, name@)].1 && r->0.wf(),
    {
        match self.position(name) {
            None => None,
            Some(i) => {
                let ghost before = self@;
                let ghost old_buffers = self.buffers@;
                self.names.remove(i);
                let b = self.buffers.remove(i);
                assert(self@ =~= before.remove(i as int));
                assert forall|j: int| 0 <= j < self.buffers.len() implies (#[trigger] self.buffers@[j]).wf() by {
                    if j < i {
                        assert(self.buffers@[j] == old_buffers[j]);
                    } else {
                        assert(self.buffers@[j] == old_buffers[j + 1]);
                    }
                }
                Some(b)
            },
        }
    }

    /// Whether every consumer has room for one more event.
    pub fn ready(&self) -> (r: bool)
        requires
            self.wf(),
        ensures
            r == all_have_room(self@),
    {
        let mut i: usize = 0;
        while i < self.buffers.len()
            invariant
                self.wf(),
                i <= self.buffers.len(),
                forall|j: int| 0 <= j < i ==> (#[trigger] self@[j]).1.queue.len() < self@[j].1.capacity,
            decreases self.buffers.len() - i,
        {
            if !self.buffers[i].has_room() {
                assert(!(self@[i as int].1.queue.len() < self@[i as int].1.capacity));
                return false;
            }
            i = i + 1;
        }
        true
    }

    /// Sends a copy of `event` to every consumer. When some consumer is full,
    /// nothing is sent and the event is handed back: the caller waits for the
    /// consumers to drain and tries again.
    pub fn send(&mut self, event: Event) -> (r: Result<(), Event>)
        requires
            old(self).wf(),
            event.wf(),
        ensures
            final(self).wf(),
            r is Ok <==> all_have_room(old(self)@),
            r is Ok ==> final(self)@ == deliver(old(self)@, event@),
            r is Err ==> final(self)@ == old(self)@ && r->Err_0@ == event@,
    {
        if !self.ready() {
            return Err(event);
        }
        let ghost before = self@;
        let mut i: usize = 0;
        while i < self.buffers.len()
            invariant
                self.wf(),
                event.wf(),
                self.names@ == old(self).names@,
                self.buffers.len() == before.len(),
                before == old(self)@,
                all_have_room(before),
                0 <= i <= self.buffers.len(),
                forall|j: int| 0 <= j < i ==> #[trigger] self@[j] == deliver(before, event@)[j],
                forall|j: int| i <= j < self.buffers.len() ==> #[trigger] self@[j] == before[j],
            decreases self.buffers.len() - i,
        {
            let copy = event.duplicate();
            let ghost prev = self@;
            let ghost prev_buffers = self.buffers@;
            assert(self@[i as int] == before[i as int]);
            let pushed = self.buffers[i].try_push(copy);
            assert(pushed is Ok);
            assert forall|j: int| 0 <= j < self.buffers.len() && j != i implies self@[j]
                == prev[j] by {
                assert(self.buffers@[j] == prev_buffers[j]);
            }
            assert(self@[i as int] == deliver(before, event@)[i as int]);
            assert forall|j: int| 0 <= j <= i implies #[trigger] self@[j] == deliver(before, event@)[j] by {
                if j < i {
                    assert(prev[j] == deliver(before, event@)[j]);
                }
            }
            assert forall|j: int| i < j < self.buffers.len() implies #[trigger] self@[j] == before[j] by {
                assert(prev[j] == before[j]);
            }
            i = i + 1;
        }
        assert(self@ =~= deliver(before, event@));
        Ok(())
    }
}

} // verus!
