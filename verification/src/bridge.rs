//! The live-input bridge's queue.
//!
//! The MIDI driver delivers key events on its own callback thread, while
//! the session state machine is owned by the main loop.  The hand-off is
//! a bounded, ordered queue: the callback enqueues an event and returns
//! at once (a full or closed queue drops it instead of blocking), and the
//! main loop drains everything once per tick, in arrival order.  The lock
//! that lets two threads share the queue lives outside the library; this
//! type carries the queue's own discipline.

use vstd::prelude::*;

verus! {

/// One live key event, as decoded from the driver's raw message.
#[derive(Clone, Copy, Debug)]
pub enum KeyEvent {
    /// A key went down.
    Down { key: u8 },
    /// A key came up.
    Up { key: u8 },
}

/// The bounded FIFO queue between the callback thread and the session.
pub struct InputQueue {
    events: Vec<KeyEvent>,
    capacity: usize,
    closed: bool,
}

impl View for InputQueue {
    type V = Seq<KeyEvent>;

    closed spec fn view(&self) -> Seq<KeyEvent> {
        self.events@
    }
}

impl InputQueue {
    /// The bound the queue was created with.
    pub closed spec fn spec_capacity(self) -> usize {
        self.capacity
    }

    /// Whether the queue was shut for the session's teardown.
    pub closed spec fn spec_closed(self) -> bool {
        self.closed
    }

    /// The queue never holds more than its bound.
    pub open spec fn wf(self) -> bool {
        self@.len() <= self.spec_capacity()
    }

    /// An empty, open queue bounded by `capacity`.
    pub fn new(capacity: usize) -> (q: InputQueue)
        ensures
            q.wf(),
            q@ == Seq::<KeyEvent>::empty(),
            q.spec_capacity() == capacity,
            !q.spec_closed(),
    {
        InputQueue { events: Vec::new(), capacity, closed: false }
    }

    /// Enqueue one event, without ever blocking: accepted exactly when
    /// the queue is open and below its bound, and dropped otherwise — an
    /// enqueue after teardown is a no-op, not an error.
    pub fn push(&mut self, ev: KeyEvent) -> (accepted: bool)
        requires
            old(self).wf(),
        ensures
            final(self).wf(),
            final(self).spec_capacity() == old(self).spec_capacity(),
            final(self).spec_closed() == old(self).spec_closed(),
            accepted == (!old(self).spec_closed() && old(self)@.len() < old(
                self,
            ).spec_capacity()),
            accepted ==> final(self)@ == old(self)@.push(ev),
            !accepted ==> final(self)@ == old(self)@,
    {
        if self.closed || self.events.len() >= self.capacity {
            return false;
        }
        self.events.push(ev);
        true
    }

    /// Take every queued event, oldest first, leaving the queue empty.
    pub fn drain(&mut self) -> (evs: Vec<KeyEvent>)
        requires
            old(self).wf(),
        ensures
            final(self).wf(),
            final(self).spec_capacity() == old(self).spec_capacity(),
            final(self).spec_closed() == old(self).spec_closed(),
            evs@ == old(self)@,
            final(self)@ == Seq::<KeyEvent>::empty(),
    {
        let mut evs: Vec<KeyEvent> = Vec::new();
        core::mem::swap(&mut evs, &mut self.events);
        proof {
            assert(self@ =~= Seq::<KeyEvent>::empty());
        }
        evs
    }

    /// Shut the queue for teardown; everything still queued stays
    /// drainable, and later enqueues fall through as no-ops.
    pub fn close(&mut self)
        requires
            old(self).wf(),
        ensures
            final(self).wf(),
            final(self).spec_capacity() == old(self).spec_capacity(),
            final(self).spec_closed(),
            final(self)@ == old(self)@,
    {
        self.closed = true;
    }

    /// How many events wait in the queue.
    pub fn len(&self) -> (n: usize)
        ensures
            n == self@.len(),
    {
        self.events.len()
    }
}

} // verus!
