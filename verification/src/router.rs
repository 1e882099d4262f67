use vstd::prelude::*;
use crate::error::SocketError;
use crate::message::{copy_frame, message_view, MessageView};
use crate::peer::{Peer, PeerState};
use crate::registry::{
    after_inbound_pop, after_inbound_push, after_outbound_pop, after_outbound_push, directory_wf,
    has_inbound, has_outbound, inbound_push_result, lists_identities, outbound_push_result,
    DirectoryState, Registry,
};

verus! {

/// A router socket as a value.
pub struct RouterState {
    /// The connected peers by identity.
    pub peers: DirectoryState,
    /// Whether new peers are still admitted; false once the socket is closed.
    pub accepting: bool,
    /// The capacity that each queue of a new peer gets.
    pub queue_capacity: nat,
}

impl RouterState {
    /// A valid directory, which is empty once the socket is closed.
    pub open spec fn wf(self) -> bool {
        &&& directory_wf(self.peers)
        &&& !self.accepting ==> self.peers == Map::<Seq<u8>, PeerState>::empty()
    }

    /// The same socket with another directory.
    pub open spec fn with_peers(self, peers: DirectoryState) -> RouterState {
        RouterState { peers, accepting: self.accepting, queue_capacity: self.queue_capacity }
    }

    /// What `register` answers for `identity`.
    pub open spec fn register_result(self, identity: Seq<u8>) -> Result<(), SocketError> {
        if !self.accepting {
            Err(SocketError::ConnectionClosed)
        } else if self.peers.dom().contains(identity) {
            Err(SocketError::DuplicateIdentity)
        } else {
            Ok(())
        }
    }

    /// The socket after `register`: a fresh peer under `identity` where the
    /// registration succeeds, no change where it fails.
    pub open spec fn after_register(self, identity: Seq<u8>) -> RouterState {
        if self.register_result(identity).is_ok() {
            self.with_peers(
                self.peers.insert(identity, PeerState::fresh(identity, self.queue_capacity)),
            )
        } else {
            self
        }
    }

    /// What `send_multipart` answers for a message whose first frame is the
    /// destination and whose other frames are the payload.
    pub open spec fn send_result(self, message: MessageView) -> Result<(), SocketError> {
        if message.len() < 2 {
            Err(SocketError::InvalidMessage)
        } else {
            outbound_push_result(self.peers, message[0])
        }
    }

    /// The socket after `send_multipart`: the payload, without the
    /// destination frame, is appended to the destination's outbound queue
    /// where the send succeeds; nothing changes where it fails.
    pub open spec fn after_send(self, message: MessageView) -> RouterState {
        if message.len() < 2 {
            self
        } else {
            self.with_peers(after_outbound_push(self.peers, message[0], message.skip(1)))
        }
    }

    /// What `push_inbound` answers: a message from the wire needs at least
    /// one frame, a connected peer to come from, and room in that peer's
    /// inbound queue.
    pub open spec fn deliver_result(self, identity: Seq<u8>, message: MessageView) -> Result<
        (),
        SocketError,
    > {
        if message.len() < 1 {
            Err(SocketError::InvalidMessage)
        } else {
            inbound_push_result(self.peers, identity)
        }
    }

    /// The socket after `push_inbound`: the message is appended to the
    /// peer's inbound queue where the push succeeds; nothing changes where
    /// it fails.
    pub open spec fn after_deliver(self, identity: Seq<u8>, message: MessageView) -> RouterState {
        if message.len() < 1 {
            self
        } else {
            self.with_peers(after_inbound_push(self.peers, identity, message))
        }
    }

    /// No peer has a message for the application.
    pub open spec fn idle(self) -> bool {
        forall|id: Seq<u8>| !#[trigger] has_inbound(self.peers, id)
    }

    /// `message` is the oldest inbound message of the peer `source`, with
    /// the source's identity in front, and `next` is the socket after that
    /// message was taken.
    pub open spec fn delivers(self, source: Seq<u8>, message: MessageView, next: RouterState)
        -> bool {
        &&& has_inbound(self.peers, source)
        &&& message == seq![source] + self.peers[source].inbound.items.first()
        &&& next == self.with_peers(after_inbound_pop(self.peers, source))
    }

    /// The socket after teardown.
    pub open spec fn closed(self) -> RouterState {
        RouterState {
            peers: Map::empty(),
            accepting: false,
            queue_capacity: self.queue_capacity,
        }
    }
}

/// The ROUTER role: addressed multipart messaging across many peers. The
/// first frame of every message that goes out names its destination, and the
/// first frame of every message that comes in names its source.
pub struct RouterSocket {
    peers: Registry,
    accepting: bool,
    queue_capacity: usize,
}

impl View for RouterSocket {
    type V = RouterState;

    closed spec fn view(&self) -> RouterState {
        RouterState {
            peers: self.peers@,
            accepting: self.accepting,
            queue_capacity: self.queue_capacity as nat,
        }
    }
}

impl RouterSocket {
    pub closed spec fn wf(&self) -> bool {
        &&& self.peers.wf()
        &&& !self.accepting ==> self.peers@ == Map::<Seq<u8>, PeerState>::empty()
    }

    /// A well-formed socket has a valid value.
    pub proof fn lemma_wf_view(&self)
        requires
            self.wf(),
        ensures
            self@.wf(),
    {
        self.peers.lemma_wf_view();
    }

    /// A router with an empty directory that admits peers; each queue of a
    /// peer will hold at most `queue_capacity` messages.
    pub fn new(queue_capacity: usize) -> (router: RouterSocket)
        ensures
            router.wf(),
            router@ == (RouterState {
                peers: Map::empty(),
                accepting: true,
                queue_capacity: queue_capacity as nat,
            }),
    {
        RouterSocket { peers: Registry::new(), accepting: true, queue_capacity }
    }

    /// Makes the socket once the acceptor has tried to listen on the
    /// endpoint: `listening` says whether it does. Without a listening
    /// endpoint there is no socket.
    pub fn bind(listening: bool, queue_capacity: usize) -> (r: Result<RouterSocket, SocketError>)
        ensures
            !listening ==> r is Err && r->Err_0 == SocketError::BindFailed,
            listening ==> r.is_ok() && r.unwrap().wf() && r.unwrap()@ == (RouterState {
                peers: Map::empty(),
                accepting: true,
                queue_capacity: queue_capacity as nat,
            }),
    {
        if listening {
            Ok(RouterSocket::new(queue_capacity))
        } else {
            Err(SocketError::BindFailed)
        }
    }

    /// Whether the socket still admits peers.
    pub fn is_accepting(&self) -> (b: bool)
        ensures
            b == self@.accepting,
    {
        self.accepting
    }

    /// The number of connected peers.
    pub fn peer_count(&self) -> (n: usize)
        ensures
            n == self@.peers.dom().len(),
    {
        self.peers.len()
    }

    /// Whether a peer is connected under `identity`.
    pub fn has_peer(&self, identity: &Vec<u8>) -> (found: bool)
        ensures
            found == self@.peers.dom().contains(identity@),
    {
        self.peers.contains(identity)
    }

    /// A snapshot of the connected identities, each once, in no particular
    /// order.
    pub fn identities(&self) -> (ids: Vec<Vec<u8>>)
        ensures
            lists_identities(message_view(ids@), self@.peers),
    {
        self.peers.identities()
    }

    /// Admits a peer that completed its handshake as `identity`. A closed
    /// socket admits nobody, and an identity that is in use is refused.
    pub fn register(&mut self, identity: Vec<u8>) -> (r: Result<(), SocketError>)
        requires
            old(self).wf(),
        ensures
            final(self).wf(),
            r == old(self)@.register_result(identity@),
            final(self)@ == old(self)@.after_register(identity@),
    {
        if !self.accepting {
            return Err(SocketError::ConnectionClosed);
        }
        let peer = Peer::new(identity, self.queue_capacity);
        self.peers.insert(peer)
    }

    /// Forgets the peer under `identity`, with whatever its queues hold.
    /// Forgetting an unknown identity changes nothing.
    pub fn unregister(&mut self, identity: &Vec<u8>)
        requires
            old(self).wf(),
        ensures
            final(self).wf(),
            final(self)@ == old(self)@.with_peers(old(self)@.peers.remove(identity@)),
    {
        let _ = self.peers.remove(identity);
        proof {
            if !self.accepting {
                assert(self.peers@ =~= Map::<Seq<u8>, PeerState>::empty());
            }
        }
    }

    /// Tears the socket down: every peer is forgotten and no peer is
    /// admitted any more.
    pub fn close(&mut self)
        ensures
            final(self).wf(),
            final(self)@ == old(self)@.closed(),
    {
        self.peers.clear();
        self.accepting = false;
    }

    /// Routes a message. The first frame names the destination and is not
    /// forwarded; the frames after it, at least one, go onto the
    /// destination's outbound queue as one unit.
    pub fn send_multipart(&mut self, messages: Vec<Vec<u8>>) -> (r: Result<(), SocketError>)
        requires
            old(self).wf(),
        ensures
            final(self).wf(),
            r == old(self)@.send_result(message_view(messages@)),
            final(self)@ == old(self)@.after_send(message_view(messages@)),
    {
        if messages.len() < 2 {
            return Err(SocketError::InvalidMessage);
        }
        let mut payload = messages;
        let destination = payload.remove(0);
        assert(message_view(payload@) =~= message_view(messages@).skip(1));
        let r = self.peers.push_outbound(&destination, payload);
        proof {
            if !self.accepting {
                assert(self.peers@ =~= Map::<Seq<u8>, PeerState>::empty());
            }
        }
        r
    }

    /// Takes the next message that any peer has for the application, with
    /// the identity of the peer it came from as its first frame. Which peer
    /// is served when several have messages is not fixed; within one peer
    /// messages come in the order of their arrival. Never waits: with
    /// nothing ready the answer is `NoMessage`.
    pub fn recv_multipart(&mut self) -> (r: Result<Vec<Vec<u8>>, SocketError>)
        requires
            old(self).wf(),
        ensures
            final(self).wf(),
            r.is_ok() ==> r.unwrap()@.len() >= 2 && old(self)@.delivers(
                message_view(r.unwrap()@)[0],
                message_view(r.unwrap()@),
                final(self)@,
            ),
            r.is_err() ==> r == Err::<Vec<Vec<u8>>, SocketError>(SocketError::NoMessage)
                && old(self)@.idle() && final(self)@ == old(self)@,
    {
        let ghost before = self@;
        let ids = self.peers.identities();
        let mut found: Option<Vec<Vec<u8>>> = None;
        let mut i: usize = 0;
        while found.is_none() && i < ids.len()
            invariant
                i <= ids.len(),
                self.wf(),
                lists_identities(message_view(ids@), before.peers),
                found.is_none() ==> self@ == before && forall|j: int|
                    0 <= j < i ==> !has_inbound(before.peers, #[trigger] ids@[j]@),
                found.is_some() ==> found.unwrap()@.len() >= 2 && before.delivers(
                    message_view(found.unwrap()@)[0],
                    message_view(found.unwrap()@),
                    self@,
                ),
            decreases ids.len() - i + if found.is_none() { 1int } else { 0int },
        {
            let popped = self.peers.pop_inbound(&ids[i]);
            if let Some(body) = popped {
                let mut message = body;
                message.insert(0, copy_frame(&ids[i]));
                proof {
                    let source = ids@[i as int]@;
                    assert(message_view(message@) =~= seq![source] + message_view(body@));
                    assert(message_view(message@)[0] == source);
                }
                found = Some(message);
            } else {
                i += 1;
            }
        }
        match found {
            Some(message) => Ok(message),
            None => {
                proof {
                    let listed = message_view(ids@);
                    assert forall|id: Seq<u8>| !#[trigger] has_inbound(before.peers, id) by {
                        if before.peers.dom().contains(id) {
                            assert(listed.to_set().contains(id));
                            let j = choose|j: int| 0 <= j < listed.len() && listed[j] == id;
                            assert(ids@[j]@ == id);
                        }
                    }
                }
                Err(SocketError::NoMessage)
            },
        }
    }

    /// Queues a message that the wire reader of `identity` produced.
    pub fn push_inbound(&mut self, identity: &Vec<u8>, message: Vec<Vec<u8>>) -> (r: Result<
        (),
        SocketError,
    >)
        requires
            old(self).wf(),
        ensures
            final(self).wf(),
            r == old(self)@.deliver_result(identity@, message_view(message@)),
            final(self)@ == old(self)@.after_deliver(identity@, message_view(message@)),
    {
        if message.len() < 1 {
            return Err(SocketError::InvalidMessage);
        }
        let r = self.peers.push_inbound(identity, message);
        proof {
            if !self.accepting {
                assert(self.peers@ =~= Map::<Seq<u8>, PeerState>::empty());
            }
        }
        r
    }

    /// Takes the next message that the wire writer of `identity` is to
    /// write: the oldest on that peer's outbound queue.
    pub fn pull_outbound(&mut self, identity: &Vec<u8>) -> (r: Option<Vec<Vec<u8>>>)
        requires
            old(self).wf(),
        ensures
            final(self).wf(),
            r.is_some() == has_outbound(old(self)@.peers, identity@),
            r.is_some() ==> r.unwrap()@.len() >= 1 && message_view(r.unwrap()@) == old(self)@.peers[identity@].outbound.items.first(),
            final(self)@ == old(self)@.with_peers(
                after_outbound_pop(old(self)@.peers, identity@),
            ),
    {
        let r = self.peers.pop_outbound(identity);
        proof {
            if !self.accepting {
                assert(self.peers@ =~= Map::<Seq<u8>, PeerState>::empty());
            }
        }
        r
    }

    /// A router cannot send a single frame: it would have no destination.
    pub fn send(&mut self, message: Vec<u8>) -> (r: Result<(), SocketError>)
        ensures
            r == Err::<(), SocketError>(SocketError::UnsupportedOperation),
            *final(self) == *old(self),
    {
        Err(SocketError::UnsupportedOperation)
    }

    /// A router cannot receive a single frame: it would have no source.
    pub fn recv(&mut self) -> (r: Result<Vec<u8>, SocketError>)
        ensures
            r == Err::<Vec<u8>, SocketError>(SocketError::UnsupportedOperation),
            *final(self) == *old(self),
    {
        Err(SocketError::UnsupportedOperation)
    }
}

} // verus!
