//! Fixed ring of pending input events
//!
//! The ring has `EVENT_BUFFER_SIZE` slots and keeps one of them empty, so
//! it holds at most `EVENT_BUFFER_SIZE - 1` events; an event pushed into a
//! full ring is dropped.

use vstd::prelude::*;
use super::event::InputEvent;

verus! {

/// Slots of an event ring.
pub const EVENT_BUFFER_SIZE: usize = 64;

/// A ring of pending events, oldest first.
pub struct EventRing {
    events: Vec<InputEvent>,
    head: usize,
    tail: usize,
}

impl EventRing {
    /// The pending events, oldest first.
    pub closed spec fn view(&self) -> Seq<InputEvent> {
        let n = if self.head >= self.tail {
            self.head - self.tail
        } else {
            EVENT_BUFFER_SIZE - self.tail + self.head
        };
        Seq::new(n as nat, |i: int| self.events@[(self.tail + i) % EVENT_BUFFER_SIZE as int])
    }

    pub closed spec fn wf(&self) -> bool {
        &&& self.events@.len() == EVENT_BUFFER_SIZE
        &&& self.head < EVENT_BUFFER_SIZE
        &&& self.tail < EVENT_BUFFER_SIZE
    }

    /// An empty ring.
    pub fn new() -> (r: Self)
        ensures
            r.wf(),
            r@ == Seq::<InputEvent>::empty(),
    {
        let mut events: Vec<InputEvent> = Vec::new();
        let mut i: usize = 0;
        while i < EVENT_BUFFER_SIZE
            invariant
                i <= EVENT_BUFFER_SIZE,
                events@.len() == i,
            decreases EVENT_BUFFER_SIZE - i,
        {
            events.push(InputEvent::new(0, 0, 0));
            i = i + 1;
        }
        let r = EventRing { events, head: 0, tail: 0 };
        assert(r@ =~= Seq::<InputEvent>::empty());
        r
    }

    /// Append an event, unless the ring is full.
    pub fn push(&mut self, event: InputEvent)
        requires
            old(self).wf(),
        ensures
            final(self).wf(),
            old(self)@.len() < EVENT_BUFFER_SIZE - 1 ==> final(self)@ == old(self)@.push(event),
            old(self)@.len() >= EVENT_BUFFER_SIZE - 1 ==> final(self)@ == old(self)@,
            final(self)@.len() <= EVENT_BUFFER_SIZE - 1,
    {
        let next = (self.head + 1) % EVENT_BUFFER_SIZE;
        if next != self.tail {
            let ghost old_view = self@;
            self.events.set(self.head, event);
            self.head = next;
            assert(self@ =~= old_view.push(event)) by {
                let n = old_view.len();
                assert forall|i: int| 0 <= i < n implies self@[i] == old_view[i] by {
                    assert((self.tail + i) % 64 != old(self).head as int) by {
                        assert(n < 63);
                    }
                }
                assert(self@[n as int] == event) by {
                    assert((self.tail + n) % 64 == old(self).head as int);
                }
            }
        }
    }

    /// Take the oldest event.
    pub fn pop(&mut self) -> (r: Option<InputEvent>)
        requires
            old(self).wf(),
        ensures
            final(self).wf(),
            old(self)@.len() == 0 ==> r is None && final(self)@ == old(self)@,
            old(self)@.len() > 0 ==> r == Some(old(self)@[0]) && final(self)@ == old(self)@.drop_first(),
    {
        if self.head == self.tail {
            return None;
        }
        let event = self.events[self.tail];
        self.tail = (self.tail + 1) % EVENT_BUFFER_SIZE;
        assert(self@ =~= old(self)@.drop_first()) by {
            assert forall|i: int| 0 <= i < self@.len() implies self@[i] == old(self)@.drop_first()[i] by {
                assert((self.tail + i) % 64 == (old(self).tail + (i + 1)) % 64);
            }
        }
        Some(event)
    }

    /// The ring holds at most `EVENT_BUFFER_SIZE - 1` events.
    pub proof fn lemma_len(&self)
        requires
            self.wf(),
        ensures
            self@.len() < EVENT_BUFFER_SIZE,
    {
    }

    /// No event is pending.
    pub fn is_empty(&self) -> (r: bool)
        requires
            self.wf(),
        ensures
            r == (self@.len() == 0),
    {
        self.head == self.tail
    }

    /// Number of pending events.
    pub fn len(&self) -> (r: usize)
        requires
            self.wf(),
        ensures
            r == self@.len(),
    {
        if self.head >= self.tail {
            self.head - self.tail
        } else {
            EVENT_BUFFER_SIZE - self.tail + self.head
        }
    }

    /// Move pending events, oldest first, into the front of `buf` until it
    /// is full or none is left; the count moved.
    pub fn drain_into(&mut self, buf: &mut Vec<InputEvent>) -> (count: usize)
        requires
            old(self).wf(),
        ensures
            final(self).wf(),
            count == if old(self)@.len() < old(buf)@.len() {
                old(self)@.len() as int
            } else {
                old(buf)@.len() as int
            },
            final(buf)@ == old(self)@.take(count as int) + old(buf)@.skip(count as int),
            final(self)@ == old(self)@.skip(count as int),
    {
        let mut count: usize = 0;
        let n = buf.len();
        while count < n && !self.is_empty()
            invariant
                self.wf(),
                count <= n == old(buf)@.len(),
                buf@.len() == n,
                count <= old(self)@.len(),
                self@ == old(self)@.skip(count as int),
                buf@ == old(self)@.take(count as int) + old(buf)@.skip(count as int),
            decreases n - count,
        {
            let ghost before = self@;
            let e = self.pop().unwrap();
            buf.set(count, e);
            proof {
                assert(self@ =~= old(self)@.skip(count + 1));
                assert(buf@ =~= old(self)@.take(count + 1) + old(buf)@.skip(count + 1));
            }
            count = count + 1;
        }
        count
    }
}

/// Events pushed into a ring with room come out of it in the order they
/// went in.
pub proof fn lemma_fifo(q: Seq<InputEvent>, a: InputEvent, b: InputEvent)
    ensures
        q.push(a).push(b).drop_first().len() == q.len() + 1,
        q.len() == 0 ==> q.push(a).push(b)[0] == a && q.push(a).push(b).drop_first()[0] == b,
{
}

} // verus!
