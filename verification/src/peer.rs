use vstd::prelude::*;
use crate::message::{message_view, MessageView};
use crate::queue::{BoundedQueue, QueueState};

verus! {

/// One connected peer, as a value: its identity and what waits in its two
/// queues.
pub struct PeerState {
    pub identity: Seq<u8>,
    /// From the wire to the application.
    pub inbound: QueueState,
    /// From the application to the wire.
    pub outbound: QueueState,
}

impl PeerState {
    /// A peer that has just connected: both queues empty, each with room for
    /// `capacity` messages.
    pub open spec fn fresh(identity: Seq<u8>, capacity: nat) -> PeerState {
        PeerState {
            identity,
            inbound: QueueState::empty(capacity),
            outbound: QueueState::empty(capacity),
        }
    }

    pub open spec fn wf(self) -> bool {
        self.inbound.wf() && self.outbound.wf()
    }

    pub open spec fn with_inbound(self, inbound: QueueState) -> PeerState {
        PeerState { identity: self.identity, inbound, outbound: self.outbound }
    }

    pub open spec fn with_outbound(self, outbound: QueueState) -> PeerState {
        PeerState { identity: self.identity, inbound: self.inbound, outbound }
    }
}

/// Per-connection state: the peer's identity and its two bounded queues.
/// The wire reader fills `inbound` and the router drains it; the router fills
/// `outbound` and the wire writer drains it.
pub struct Peer {
    identity: Vec<u8>,
    inbound: BoundedQueue,
    outbound: BoundedQueue,
}

impl View for Peer {
    type V = PeerState;

    closed spec fn view(&self) -> PeerState {
        PeerState {
            identity: self.identity@,
            inbound: self.inbound@,
            outbound: self.outbound@,
        }
    }
}

impl Peer {
    /// Both queues respect their bounds.
    pub closed spec fn wf(&self) -> bool {
        self.inbound.wf() && self.outbound.wf()
    }

    /// A well-formed peer has a well-formed value.
    pub proof fn lemma_wf_view(&self)
        ensures
            self.wf() == self@.wf(),
    {
        self.inbound.lemma_wf_view();
        self.outbound.lemma_wf_view();
    }

    /// A newly connected peer with empty queues of the given capacity.
    pub fn new(identity: Vec<u8>, capacity: usize) -> (peer: Peer)
        ensures
            peer.wf(),
            peer@ == PeerState::fresh(identity@, capacity as nat),
    {
        Peer {
            identity,
            inbound: BoundedQueue::new(capacity),
            outbound: BoundedQueue::new(capacity),
        }
    }

    pub fn identity(&self) -> (id: &Vec<u8>)
        ensures
            id@ == self@.identity,
    {
        &self.identity
    }

    /// How many messages wait for the application.
    pub fn inbound_len(&self) -> (n: usize)
        ensures
            n == self@.inbound.items.len(),
    {
        self.inbound.len()
    }

    /// How many messages wait for the wire.
    pub fn outbound_len(&self) -> (n: usize)
        ensures
            n == self@.outbound.items.len(),
    {
        self.outbound.len()
    }

    /// Queues a message that arrived from the wire. A full queue refuses it
    /// and hands it back.
    pub fn push_inbound(&mut self, message: Vec<Vec<u8>>) -> (r: Result<(), Vec<Vec<u8>>>)
        requires
            old(self).wf(),
            message@.len() >= 1,
        ensures
            final(self).wf(),
            old(self)@.inbound.is_full() ==> r == Err::<(), Vec<Vec<u8>>>(message) && final(self)@
                == old(self)@,
            !old(self)@.inbound.is_full() ==> r.is_ok() && final(self)@ == old(self)@.with_inbound(old(self)@.inbound.pushed(message_view(message@))),
    {
        self.inbound.try_push(message)
    }

    /// Takes the oldest message that arrived from the wire.
    pub fn pop_inbound(&mut self) -> (r: Option<Vec<Vec<u8>>>)
        requires
            old(self).wf(),
        ensures
            final(self).wf(),
            old(self)@.inbound.items.len() == 0 ==> r.is_none() && final(self)@ == old(self)@,
            old(self)@.inbound.items.len() > 0 ==> r.is_some() && r.unwrap()@.len() >= 1
                && message_view(r.unwrap()@)
                == old(self)@.inbound.items.first() && final(self)@ == old(self)@.with_inbound(
                old(self)@.inbound.popped(),
            ),
    {
        self.inbound.pop()
    }

    /// Queues a message for the wire. A full queue refuses it and hands it
    /// back.
    pub fn push_outbound(&mut self, message: Vec<Vec<u8>>) -> (r: Result<(), Vec<Vec<u8>>>)
        requires
            old(self).wf(),
            message@.len() >= 1,
        ensures
            final(self).wf(),
            old(self)@.outbound.is_full() ==> r == Err::<(), Vec<Vec<u8>>>(message) && final(self)@ == old(self)@,
            !old(self)@.outbound.is_full() ==> r.is_ok() && final(self)@ == old(self)@.with_outbound(old(self)@.outbound.pushed(message_view(message@))),
    {
        self.outbound.try_push(message)
    }

    /// Takes the oldest message that waits for the wire.
    pub fn pop_outbound(&mut self) -> (r: Option<Vec<Vec<u8>>>)
        requires
            old(self).wf(),
        ensures
            final(self).wf(),
            old(self)@.outbound.items.len() == 0 ==> r.is_none() && final(self)@ == old(self)@,
            old(self)@.outbound.items.len() > 0 ==> r.is_some() && r.unwrap()@.len() >= 1
                && message_view(r.unwrap()@)
                == old(self)@.outbound.items.first() && final(self)@ == old(self)@.with_outbound(
                old(self)@.outbound.popped(),
            ),
    {
        self.outbound.pop()
    }
}

} // verus!
