use std::collections::VecDeque;
use vstd::prelude::*;
use crate::message::{messages_view, message_view, MessageView};

verus! {

/// A bounded FIFO of messages, as a value: what waits in it, oldest first,
/// and how many messages it may hold.
pub struct QueueState {
    pub items: Seq<MessageView>,
    pub capacity: nat,
}

impl QueueState {
    /// The empty queue with room for `capacity` messages.
    pub open spec fn empty(capacity: nat) -> QueueState {
        QueueState { items: Seq::empty(), capacity }
    }

    /// No more waits than there is room for, and every message that waits
    /// has at least one frame.
    pub open spec fn wf(self) -> bool {
        &&& self.items.len() <= self.capacity
        &&& forall|i: int| 0 <= i < self.items.len() ==> (#[trigger] self.items[i]).len() >= 1
    }

    pub open spec fn is_full(self) -> bool {
        self.items.len() >= self.capacity
    }

    /// The queue with `message` behind everything that waits.
    pub open spec fn pushed(self, message: MessageView) -> QueueState {
        QueueState { items: self.items.push(message), capacity: self.capacity }
    }

    /// The queue without its oldest message.
    pub open spec fn popped(self) -> QueueState {
        QueueState { items: self.items.drop_first(), capacity: self.capacity }
    }
}

/// A bounded FIFO queue of multipart messages with one producer and one
/// consumer. It never blocks: a push onto a full queue is refused.
pub struct BoundedQueue {
    items: VecDeque<Vec<Vec<u8>>>,
    capacity: usize,
}

impl View for BoundedQueue {
    type V = QueueState;

    closed spec fn view(&self) -> QueueState {
        QueueState { items: messages_view(self.items@), capacity: self.capacity as nat }
    }
}

impl BoundedQueue {
    /// The bound is respected and no queued message is empty.
    pub closed spec fn wf(&self) -> bool {
        self@.wf()
    }

    /// Well-formedness is that of the value.
    pub proof fn lemma_wf_view(&self)
        ensures
            self.wf() == self@.wf(),
    {
    }

    /// An empty queue that holds at most `capacity` messages.
    pub fn new(capacity: usize) -> (q: BoundedQueue)
        ensures
            q.wf(),
            q@ == QueueState::empty(capacity as nat),
    {
        let q = BoundedQueue { items: VecDeque::new(), capacity };
        assert(messages_view(q.items@) =~= Seq::empty());
        q
    }

    /// The number of messages that wait.
    pub fn len(&self) -> (n: usize)
        ensures
            n == self@.items.len(),
    {
        self.items.len()
    }

    /// The most messages the queue may hold.
    pub fn capacity(&self) -> (n: usize)
        ensures
            n == self@.capacity,
    {
        self.capacity
    }

    pub fn is_empty(&self) -> (b: bool)
        ensures
            b == (self@.items.len() == 0),
    {
        self.items.len() == 0
    }

    pub fn is_full(&self) -> (b: bool)
        ensures
            b == self@.is_full(),
    {
        self.items.len() >= self.capacity
    }

    /// Appends `message`, which has at least one frame, unless the queue is
    /// full, in which case the message comes back and nothing changes.
    pub fn try_push(&mut self, message: Vec<Vec<u8>>) -> (r: Result<(), Vec<Vec<u8>>>)
        requires
            old(self).wf(),
            message@.len() >= 1,
        ensures
            final(self).wf(),
            old(self)@.is_full() ==> r == Err::<(), Vec<Vec<u8>>>(message) && final(self)@ == old(self)@,
            !old(self)@.is_full() ==> r.is_ok() && final(self)@ == old(self)@.pushed(
                message_view(message@),
            ),
    {
        if self.items.len() >= self.capacity {
            return Err(message);
        }
        let ghost before = self.items@;
        self.items.push_back(message);
        assert(messages_view(before.push(message)) =~= messages_view(before).push(
            message_view(message@),
        ));
        assert forall|i: int| 0 <= i < self@.items.len() implies (#[trigger] self@.items[i]).len()
            >= 1 by {
            if i < before.len() {
                assert(self@.items[i] == old(self)@.items[i]);
            }
        }
        Ok(())
    }

    /// Takes the oldest message, if any waits.
    pub fn pop(&mut self) -> (r: Option<Vec<Vec<u8>>>)
        requires
            old(self).wf(),
        ensures
            final(self).wf(),
            old(self)@.items.len() == 0 ==> r.is_none() && final(self)@ == old(self)@,
            old(self)@.items.len() > 0 ==> r.is_some() && r.unwrap()@.len() >= 1 && message_view(
                r.unwrap()@,
            ) == old(self)@.items.first() && final(self)@ == old(self)@.popped(),
    {
        let ghost before = self.items@;
        let r = self.items.pop_front();
        proof {
            if before.len() > 0 {
                assert(messages_view(before.subrange(1, before.len() as int)) =~= messages_view(
                    before,
                ).drop_first());
                assert(messages_view(before)[0].len() >= 1);
                assert forall|i: int| 0 <= i < self@.items.len() implies (#[trigger] self@.items[i]).len()
                    >= 1 by {
                    assert(self@.items[i] == messages_view(before)[i + 1]);
                }
            }
        }
        r
    }
}

} // verus!
