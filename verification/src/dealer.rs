use vstd::prelude::*;
use crate::error::SocketError;
use crate::message::{message_view, MessageView};
use crate::queue::{BoundedQueue, QueueState};

verus! {

/// A dealer socket as a value.
pub struct DealerState {
    /// Whether the one connection is still there.
    pub connected: bool,
    /// From the wire to the application.
    pub inbound: QueueState,
    /// From the application to the wire.
    pub outbound: QueueState,
}

impl DealerState {
    /// A dealer that has just connected.
    pub open spec fn fresh(capacity: nat) -> DealerState {
        DealerState {
            connected: true,
            inbound: QueueState::empty(capacity),
            outbound: QueueState::empty(capacity),
        }
    }

    /// Every queued message has a frame and no queue is over its bound.
    pub open spec fn wf(self) -> bool {
        self.inbound.wf() && self.outbound.wf()
    }

    /// What `send` answers.
    pub open spec fn send_result(self, message: MessageView) -> Result<(), SocketError> {
        if !self.connected {
            Err(SocketError::ConnectionClosed)
        } else if message.len() < 1 {
            Err(SocketError::InvalidMessage)
        } else if self.outbound.is_full() {
            Err(SocketError::SendFailed)
        } else {
            Ok(())
        }
    }

    /// The socket after `send`: the message is appended to the outbound
    /// queue where the send succeeds, and nothing changes where it fails.
    pub open spec fn after_send(self, message: MessageView) -> DealerState {
        if self.send_result(message).is_ok() {
            DealerState {
                connected: self.connected,
                inbound: self.inbound,
                outbound: self.outbound.pushed(message),
            }
        } else {
            self
        }
    }

    /// What `push_inbound` answers.
    pub open spec fn deliver_result(self, message: MessageView) -> Result<(), SocketError> {
        if message.len() < 1 {
            Err(SocketError::InvalidMessage)
        } else if self.inbound.is_full() {
            Err(SocketError::SendFailed)
        } else {
            Ok(())
        }
    }

    /// The socket after `push_inbound`.
    pub open spec fn after_deliver(self, message: MessageView) -> DealerState {
        if self.deliver_result(message).is_ok() {
            DealerState {
                connected: self.connected,
                inbound: self.inbound.pushed(message),
                outbound: self.outbound,
            }
        } else {
            self
        }
    }

    /// What `recv` fails with, if it fails.
    pub open spec fn recv_error(self) -> Option<SocketError> {
        if !self.connected {
            Some(SocketError::ConnectionClosed)
        } else if self.inbound.items.len() == 0 {
            Some(SocketError::NoMessage)
        } else {
            None
        }
    }

    /// The socket after `recv`: without its oldest inbound message where the
    /// receive succeeds, unchanged where it fails.
    pub open spec fn after_recv(self) -> DealerState {
        if self.recv_error().is_none() {
            DealerState {
                connected: self.connected,
                inbound: self.inbound.popped(),
                outbound: self.outbound,
            }
        } else {
            self
        }
    }
}

/// The DEALER role: one connection to a router. Messages need no address,
/// the connection is the address.
pub struct DealerSocket {
    connected: bool,
    inbound: BoundedQueue,
    outbound: BoundedQueue,
}

impl View for DealerSocket {
    type V = DealerState;

    closed spec fn view(&self) -> DealerState {
        DealerState {
            connected: self.connected,
            inbound: self.inbound@,
            outbound: self.outbound@,
        }
    }
}

impl DealerSocket {
    /// Both queues respect their bounds and hold no empty message.
    pub closed spec fn wf(&self) -> bool {
        self.inbound.wf() && self.outbound.wf()
    }

    /// A well-formed socket has a valid value.
    pub proof fn lemma_wf_view(&self)
        ensures
            self.wf() == self@.wf(),
    {
        self.inbound.lemma_wf_view();
        self.outbound.lemma_wf_view();
    }

    /// A connected dealer with empty queues of the given capacity.
    pub fn new(queue_capacity: usize) -> (dealer: DealerSocket)
        ensures
            dealer.wf(),
            dealer@ == DealerState::fresh(queue_capacity as nat),
    {
        DealerSocket {
            connected: true,
            inbound: BoundedQueue::new(queue_capacity),
            outbound: BoundedQueue::new(queue_capacity),
        }
    }

    /// Makes the socket once the transport has tried to reach the endpoint:
    /// `established` says whether it did. Without a connection there is no
    /// socket.
    pub fn bind(established: bool, queue_capacity: usize) -> (r: Result<DealerSocket, SocketError>)
        ensures
            !established ==> r is Err && r->Err_0 == SocketError::ConnectFailed,
            established ==> r.is_ok() && r.unwrap().wf() && r.unwrap()@ == DealerState::fresh(
                queue_capacity as nat,
            ),
    {
        if established {
            Ok(DealerSocket::new(queue_capacity))
        } else {
            Err(SocketError::ConnectFailed)
        }
    }

    /// Whether the connection is still there.
    pub fn is_connected(&self) -> (b: bool)
        ensures
            b == self@.connected,
    {
        self.connected
    }

    /// Records that the connection is gone. What the queues hold stays, but
    /// neither `send` nor `recv` succeeds any more.
    pub fn disconnect(&mut self)
        requires
            old(self).wf(),
        ensures
            final(self).wf(),
            final(self)@ == (DealerState {
                connected: false,
                inbound: old(self)@.inbound,
                outbound: old(self)@.outbound,
            }),
    {
        self.connected = false;
    }

    /// Queues one multipart message for the wire.
    pub fn send(&mut self, message: Vec<Vec<u8>>) -> (r: Result<(), SocketError>)
        requires
            old(self).wf(),
        ensures
            final(self).wf(),
            r == old(self)@.send_result(message_view(message@)),
            final(self)@ == old(self)@.after_send(message_view(message@)),
    {
        if !self.connected {
            return Err(SocketError::ConnectionClosed);
        }
        if message.len() < 1 {
            return Err(SocketError::InvalidMessage);
        }
        match self.outbound.try_push(message) {
            Ok(()) => Ok(()),
            Err(_) => Err(SocketError::SendFailed),
        }
    }

    /// Takes the next multipart message in the order of arrival. Never
    /// waits: with nothing ready the answer is `NoMessage`.
    pub fn recv(&mut self) -> (r: Result<Vec<Vec<u8>>, SocketError>)
        requires
            old(self).wf(),
        ensures
            final(self).wf(),
            final(self)@ == old(self)@.after_recv(),
            match old(self)@.recv_error() {
                Some(e) => r.is_err() && r.unwrap_err() == e,
                None => r.is_ok() && r.unwrap()@.len() >= 1 && message_view(r.unwrap()@) == old(self)@.inbound.items.first(),
            },
    {
        if !self.connected {
            return Err(SocketError::ConnectionClosed);
        }
        match self.inbound.pop() {
            Some(message) => Ok(message),
            None => Err(SocketError::NoMessage),
        }
    }

    /// Queues a message that the wire reader produced. A message without a
    /// frame is invalid, and a full queue refuses with `SendFailed`.
    pub fn push_inbound(&mut self, message: Vec<Vec<u8>>) -> (r: Result<(), SocketError>)
        requires
            old(self).wf(),
        ensures
            final(self).wf(),
            r == old(self)@.deliver_result(message_view(message@)),
            final(self)@ == old(self)@.after_deliver(message_view(message@)),
    {
        if message.len() < 1 {
            return Err(SocketError::InvalidMessage);
        }
        match self.inbound.try_push(message) {
            Ok(()) => Ok(()),
            Err(_) => Err(SocketError::SendFailed),
        }
    }

    /// Takes the next message that the wire writer is to write: the oldest
    /// on the outbound queue.
    pub fn pull_outbound(&mut self) -> (r: Option<Vec<Vec<u8>>>)
        requires
            old(self).wf(),
        ensures
            final(self).wf(),
            r.is_some() == (old(self)@.outbound.items.len() > 0),
            r.is_some() ==> r.unwrap()@.len() >= 1 && message_view(r.unwrap()@) == old(self)@.outbound.items.first()
                && final(self)@ == (DealerState {
                connected: old(self)@.connected,
                inbound: old(self)@.inbound,
                outbound: old(self)@.outbound.popped(),
            }),
            r.is_none() ==> final(self)@ == old(self)@,
    {
        self.outbound.pop()
    }
}

} // verus!
