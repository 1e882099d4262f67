use dashmap::DashMap;
use vstd::prelude::*;
use crate::directory::{
    peers_clear, peers_contains, peers_keys, peers_len, peers_new, peers_of, peers_put,
    peers_take,
};
use crate::error::SocketError;
use crate::message::{copy_frame, message_view};
use crate::peer::{Peer, PeerState};

verus! {

/// The directory as a value: the connected peers by identity.
pub type DirectoryState = Map<Seq<u8>, PeerState>;

/// What makes a directory valid: finitely many peers, each stored under its
/// own identity, each with queues within their bounds.
pub open spec fn directory_wf(peers: DirectoryState) -> bool {
    &&& peers.dom().finite()
    &&& forall|id: Seq<u8>| #[trigger]
        peers.dom().contains(id) ==> peers[id].wf() && peers[id].identity == id
}

/// Each stored peer by its value.
pub open spec fn peer_states(peers: Map<Seq<u8>, Peer>) -> DirectoryState {
    Map::new(|id: Seq<u8>| peers.dom().contains(id), |id: Seq<u8>| peers[id]@)
}

/// `ids` names every peer of `peers` exactly once, and nothing else.
pub open spec fn lists_identities(ids: Seq<Seq<u8>>, peers: DirectoryState) -> bool {
    &&& ids.no_duplicates()
    &&& ids.to_set() == peers.dom()
}

/// The directory of connected peers: at most one peer per identity.
pub struct Registry {
    peers: DashMap<Vec<u8>, Peer>,
}

impl View for Registry {
    type V = DirectoryState;

    closed spec fn view(&self) -> DirectoryState {
        peer_states(peers_of(self.peers))
    }
}

impl Registry {
    pub closed spec fn wf(&self) -> bool {
        &&& peers_of(self.peers).dom().finite()
        &&& forall|id: Seq<u8>| #[trigger]
            peers_of(self.peers).dom().contains(id) ==> peers_of(self.peers)[id].wf()
                && peers_of(self.peers)[id]@.identity == id
    }

    /// A well-formed directory has a valid value.
    pub proof fn lemma_wf_view(&self)
        requires
            self.wf(),
        ensures
            directory_wf(self@),
    {
        assert forall|id: Seq<u8>| #[trigger] self@.dom().contains(id) implies self@[id].wf()
            && self@[id].identity == id by {
            peers_of(self.peers)[id].lemma_wf_view();
        }
        assert(self@.dom() =~= peers_of(self.peers).dom());
    }

    /// The empty directory.
    pub fn new() -> (registry: Registry)
        ensures
            registry.wf(),
            registry@ == Map::<Seq<u8>, PeerState>::empty(),
    {
        let registry = Registry { peers: peers_new() };
        assert(registry@ =~= Map::<Seq<u8>, PeerState>::empty());
        registry
    }

    /// The number of connected peers.
    pub fn len(&self) -> (n: usize)
        ensures
            n == self@.dom().len(),
    {
        assert(self@.dom() =~= peers_of(self.peers).dom());
        peers_len(&self.peers)
    }

    /// Whether a peer is connected under `identity`.
    pub fn contains(&self, identity: &Vec<u8>) -> (found: bool)
        ensures
            found == self@.dom().contains(identity@),
    {
        peers_contains(&self.peers, identity)
    }

    /// Adds `peer` under its own identity. An identity that is already taken
    /// is refused and the directory stays as it is: the peer that holds the
    /// identity keeps its queued messages.
    pub fn insert(&mut self, peer: Peer) -> (r: Result<(), SocketError>)
        requires
            old(self).wf(),
            peer.wf(),
        ensures
            final(self).wf(),
            old(self)@.dom().contains(peer@.identity) ==> r == Err::<(), SocketError>(
                SocketError::DuplicateIdentity,
            ) && final(self)@ == old(self)@,
            !old(self)@.dom().contains(peer@.identity) ==> r == Ok::<(), SocketError>(())
                && final(self)@ == old(self)@.insert(peer@.identity, peer@),
    {
        if peers_contains(&self.peers, peer.identity()) {
            return Err(SocketError::DuplicateIdentity);
        }
        let key = copy_frame(peer.identity());
        let _ = peers_put(&mut self.peers, key, peer);
        assert(self@ =~= old(self)@.insert(peer@.identity, peer@));
        Ok(())
    }

    /// Takes the peer under `identity` out of the directory. Where there is
    /// none, nothing changes.
    pub fn remove(&mut self, identity: &Vec<u8>) -> (removed: Option<Peer>)
        requires
            old(self).wf(),
        ensures
            final(self).wf(),
            final(self)@ == old(self)@.remove(identity@),
            removed.is_some() == old(self)@.dom().contains(identity@),
            removed.is_some() ==> removed.unwrap().wf() && removed.unwrap()@ == old(self)@[identity@],
    {
        let removed = peers_take(&mut self.peers, identity);
        assert(self@ =~= old(self)@.remove(identity@));
        removed
    }

    /// Removes every peer.
    pub fn clear(&mut self)
        ensures
            final(self).wf(),
            final(self)@ == Map::<Seq<u8>, PeerState>::empty(),
    {
        peers_clear(&mut self.peers);
        assert(self@ =~= Map::<Seq<u8>, PeerState>::empty());
    }

    /// A snapshot of the connected identities, each once, in no particular
    /// order.
    pub fn identities(&self) -> (ids: Vec<Vec<u8>>)
        ensures
            lists_identities(message_view(ids@), self@),
    {
        let ids = peers_keys(&self.peers);
        proof {
            let listed = message_view(ids@);
            assert(listed.to_set() =~= self@.dom()) by {
                assert forall|id: Seq<u8>| self@.dom().contains(id) implies listed.to_set().contains(
                    id,
                ) by {
                    let i = choose|i: int| 0 <= i < ids@.len() && #[trigger] ids@[i]@ == id;
                    assert(listed[i] == id);
                }
                assert forall|id: Seq<u8>| listed.to_set().contains(id) implies self@.dom().contains(
                    id,
                ) by {
                    let i = choose|i: int| 0 <= i < listed.len() && listed[i] == id;
                    assert(ids@[i]@ == id);
                }
            }
        }
        ids
    }

    /// Queues `message`, which has at least one frame, for the wire of the
    /// peer under `identity`.
    pub fn push_outbound(&mut self, identity: &Vec<u8>, message: Vec<Vec<u8>>) -> (r: Result<
        (),
        SocketError,
    >)
        requires
            old(self).wf(),
            message@.len() >= 1,
        ensures
            final(self).wf(),
            r == outbound_push_result(old(self)@, identity@),
            final(self)@ == after_outbound_push(old(self)@, identity@, message_view(message@)),
    {
        match peers_take(&mut self.peers, identity) {
            None => {
                assert(self@ =~= old(self)@);
                Err(SocketError::DestinationNotFound)
            },
            Some(peer) => {
                let mut peer = peer;
                let pushed = peer.push_outbound(message);
                let key = copy_frame(identity);
                let _ = peers_put(&mut self.peers, key, peer);
                assert(self@ =~= old(self)@.insert(identity@, peer@));
                match pushed {
                    Ok(()) => Ok(()),
                    Err(_) => {
                        assert(self@ =~= old(self)@);
                        Err(SocketError::SendFailed)
                    },
                }
            },
        }
    }

    /// Queues `message`, which arrived from the wire and has at least one
    /// frame, for the application.
    pub fn push_inbound(&mut self, identity: &Vec<u8>, message: Vec<Vec<u8>>) -> (r: Result<
        (),
        SocketError,
    >)
        requires
            old(self).wf(),
            message@.len() >= 1,
        ensures
            final(self).wf(),
            r == inbound_push_result(old(self)@, identity@),
            final(self)@ == after_inbound_push(old(self)@, identity@, message_view(message@)),
    {
        match peers_take(&mut self.peers, identity) {
            None => {
                assert(self@ =~= old(self)@);
                Err(SocketError::DestinationNotFound)
            },
            Some(peer) => {
                let mut peer = peer;
                let pushed = peer.push_inbound(message);
                let key = copy_frame(identity);
                let _ = peers_put(&mut self.peers, key, peer);
                assert(self@ =~= old(self)@.insert(identity@, peer@));
                match pushed {
                    Ok(()) => Ok(()),
                    Err(_) => {
                        assert(self@ =~= old(self)@);
                        Err(SocketError::SendFailed)
                    },
                }
            },
        }
    }

    /// Takes the oldest message that the peer under `identity` has for the
    /// application.
    pub fn pop_inbound(&mut self, identity: &Vec<u8>) -> (r: Option<Vec<Vec<u8>>>)
        requires
            old(self).wf(),
        ensures
            final(self).wf(),
            r.is_some() == has_inbound(old(self)@, identity@),
            r.is_some() ==> r.unwrap()@.len() >= 1 && message_view(r.unwrap()@) == old(self)@[identity@].inbound.items.first(),
            final(self)@ == after_inbound_pop(old(self)@, identity@),
    {
        match peers_take(&mut self.peers, identity) {
            None => {
                assert(self@ =~= old(self)@);
                None
            },
            Some(peer) => {
                let mut peer = peer;
                let popped = peer.pop_inbound();
                let key = copy_frame(identity);
                let _ = peers_put(&mut self.peers, key, peer);
                assert(self@ =~= old(self)@.insert(identity@, peer@));
                if popped.is_none() {
                    assert(self@ =~= old(self)@);
                }
                popped
            },
        }
    }

    /// Takes the oldest message that the peer under `identity` has for the
    /// wire.
    pub fn pop_outbound(&mut self, identity: &Vec<u8>) -> (r: Option<Vec<Vec<u8>>>)
        requires
            old(self).wf(),
        ensures
            final(self).wf(),
            r.is_some() == has_outbound(old(self)@, identity@),
            r.is_some() ==> r.unwrap()@.len() >= 1 && message_view(r.unwrap()@) == old(self)@[identity@].outbound.items.first(),
            final(self)@ == after_outbound_pop(old(self)@, identity@),
    {
        match peers_take(&mut self.peers, identity) {
            None => {
                assert(self@ =~= old(self)@);
                None
            },
            Some(peer) => {
                let mut peer = peer;
                let popped = peer.pop_outbound();
                let key = copy_frame(identity);
                let _ = peers_put(&mut self.peers, key, peer);
                assert(self@ =~= old(self)@.insert(identity@, peer@));
                if popped.is_none() {
                    assert(self@ =~= old(self)@);
                }
                popped
            },
        }
    }
}

/// What a push onto the outbound queue of `identity` answers.
pub open spec fn outbound_push_result(peers: DirectoryState, identity: Seq<u8>) -> Result<
    (),
    SocketError,
> {
    if !peers.dom().contains(identity) {
        Err(SocketError::DestinationNotFound)
    } else if peers[identity].outbound.is_full() {
        Err(SocketError::SendFailed)
    } else {
        Ok(())
    }
}

/// The directory after a push onto the outbound queue of `identity`: the
/// message is appended where the push succeeds, and nothing changes where it
/// fails.
pub open spec fn after_outbound_push(
    peers: DirectoryState,
    identity: Seq<u8>,
    message: Seq<Seq<u8>>,
) -> DirectoryState {
    if outbound_push_result(peers, identity).is_ok() {
        peers.insert(
            identity,
            peers[identity].with_outbound(peers[identity].outbound.pushed(message)),
        )
    } else {
        peers
    }
}

/// What a push onto the inbound queue of `identity` answers.
pub open spec fn inbound_push_result(peers: DirectoryState, identity: Seq<u8>) -> Result<
    (),
    SocketError,
> {
    if !peers.dom().contains(identity) {
        Err(SocketError::DestinationNotFound)
    } else if peers[identity].inbound.is_full() {
        Err(SocketError::SendFailed)
    } else {
        Ok(())
    }
}

/// The directory after a push onto the inbound queue of `identity`.
pub open spec fn after_inbound_push(
    peers: DirectoryState,
    identity: Seq<u8>,
    message: Seq<Seq<u8>>,
) -> DirectoryState {
    if inbound_push_result(peers, identity).is_ok() {
        peers.insert(
            identity,
            peers[identity].with_inbound(peers[identity].inbound.pushed(message)),
        )
    } else {
        peers
    }
}

/// Whether the peer under `identity` exists and has a message for the
/// application.
pub open spec fn has_inbound(peers: DirectoryState, identity: Seq<u8>) -> bool {
    peers.dom().contains(identity) && peers[identity].inbound.items.len() > 0
}

/// Whether the peer under `identity` exists and has a message for the wire.
pub open spec fn has_outbound(peers: DirectoryState, identity: Seq<u8>) -> bool {
    peers.dom().contains(identity) && peers[identity].outbound.items.len() > 0
}

/// The directory after the oldest inbound message of `identity` was taken.
pub open spec fn after_inbound_pop(peers: DirectoryState, identity: Seq<u8>) -> DirectoryState {
    if has_inbound(peers, identity) {
        peers.insert(identity, peers[identity].with_inbound(peers[identity].inbound.popped()))
    } else {
        peers
    }
}

/// The directory after the oldest outbound message of `identity` was taken.
pub open spec fn after_outbound_pop(peers: DirectoryState, identity: Seq<u8>) -> DirectoryState {
    if has_outbound(peers, identity) {
        peers.insert(identity, peers[identity].with_outbound(peers[identity].outbound.popped()))
    } else {
        peers
    }
}

} // verus!
