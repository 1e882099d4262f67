use vstd::prelude::*;
use crate::error::SocketError;
use crate::message::MessageView;
use crate::peer::PeerState;
use crate::queue::QueueState;
use crate::registry::{after_outbound_pop, has_outbound, DirectoryState};
use crate::router::RouterState;

verus! {

/// The message that routes `payload` to `destination`.
pub open spec fn addressed(destination: Seq<u8>, payload: MessageView) -> MessageView {
    seq![destination] + payload
}

/// The socket after each of `payloads` was sent to `destination`, one call
/// of `send_multipart` per payload, in order.
pub open spec fn after_sends(
    socket: RouterState,
    destination: Seq<u8>,
    payloads: Seq<MessageView>,
) -> RouterState
    decreases payloads.len(),
{
    if payloads.len() == 0 {
        socket
    } else {
        after_sends(socket, destination, payloads.drop_last()).after_send(
            addressed(destination, payloads.last()),
        )
    }
}

/// How many of `count` sends a queue accepts before it is full.
pub open spec fn accepted_count(queue: QueueState, count: nat) -> nat {
    let free = queue.capacity - queue.items.len();
    if count <= free {
        count
    } else {
        free as nat
    }
}

/// The directory after the wire writer of `identity` pulled `count` times.
pub open spec fn after_pulls(peers: DirectoryState, identity: Seq<u8>, count: nat) -> DirectoryState
    decreases count,
{
    if count == 0 {
        peers
    } else {
        after_outbound_pop(after_pulls(peers, identity, (count - 1) as nat), identity)
    }
}

/// The socket after each of `identities` was registered, in order.
pub open spec fn after_registers(socket: RouterState, identities: Seq<Seq<u8>>) -> RouterState
    decreases identities.len(),
{
    if identities.len() == 0 {
        socket
    } else {
        after_registers(socket, identities.drop_last()).after_register(identities.last())
    }
}

/// Sends to one peer queue up in the order of the calls. After any run of
/// sends to a connected peer, its outbound queue holds what it held before,
/// followed by the payloads that were sent, in the order they were sent, as
/// far as the queue had room; every other peer is as before.
pub proof fn lemma_sends_queue_in_order(
    socket: RouterState,
    destination: Seq<u8>,
    payloads: Seq<MessageView>,
)
    requires
        socket.wf(),
        socket.peers.dom().contains(destination),
        forall|i: int| 0 <= i < payloads.len() ==> (#[trigger] payloads[i]).len() >= 1,
    ensures
        ({
            let peer = socket.peers[destination];
            let kept = accepted_count(peer.outbound, payloads.len());
            after_sends(socket, destination, payloads) == socket.with_peers(
                socket.peers.insert(
                    destination,
                    peer.with_outbound(
                        QueueState {
                            items: peer.outbound.items + payloads.take(kept as int),
                            capacity: peer.outbound.capacity,
                        },
                    ),
                ),
            )
        }),
    decreases payloads.len(),
{
    let peer = socket.peers[destination];
    let queue = peer.outbound;
    let kept = accepted_count(queue, payloads.len());
    if payloads.len() == 0 {
        assert(queue.items + payloads.take(0) =~= queue.items);
        assert(socket.peers.insert(destination, peer.with_outbound(queue)) =~= socket.peers);
    } else {
        let earlier = payloads.drop_last();
        lemma_sends_queue_in_order(socket, destination, earlier);
        let kept_earlier = accepted_count(queue, earlier.len());
        let middle = after_sends(socket, destination, earlier);
        let message = addressed(destination, payloads.last());
        assert(message[0] == destination);
        assert(message.skip(1) =~= payloads.last());
        let queue_middle = middle.peers[destination].outbound;
        assert(queue_middle.items == queue.items + earlier.take(kept_earlier as int));
        if queue_middle.is_full() {
            assert(kept == kept_earlier);
            assert(earlier.take(kept as int) =~= payloads.take(kept as int));
        } else {
            assert(kept_earlier == earlier.len());
            assert(kept == payloads.len());
            assert(earlier.take(kept_earlier as int) =~= earlier);
            assert(payloads.take(kept as int) =~= payloads);
            assert((queue.items + earlier).push(payloads.last()) =~= queue.items + payloads);
            assert(middle.after_send(message).peers =~= socket.peers.insert(
                destination,
                peer.with_outbound(
                    QueueState { items: queue.items + payloads, capacity: queue.capacity },
                ),
            ));
        }
    }
}

/// The wire writer gets a peer's messages oldest first: after `count` pulls
/// the outbound queue has lost its first `count` messages, so the next pull
/// yields the message that was `count`-th in line.
pub proof fn lemma_pulls_drain_in_order(peers: DirectoryState, identity: Seq<u8>, count: nat)
    requires
        peers.dom().contains(identity),
        count <= peers[identity].outbound.items.len(),
    ensures
        after_pulls(peers, identity, count) == peers.insert(
            identity,
            peers[identity].with_outbound(
                QueueState {
                    items: peers[identity].outbound.items.skip(count as int),
                    capacity: peers[identity].outbound.capacity,
                },
            ),
        ),
        count < peers[identity].outbound.items.len() ==> has_outbound(
            after_pulls(peers, identity, count),
            identity,
        ) && after_pulls(peers, identity, count)[identity].outbound.items.first()
            == peers[identity].outbound.items[count as int],
    decreases count,
{
    let items = peers[identity].outbound.items;
    if count == 0 {
        assert(items.skip(0) =~= items);
        assert(peers.insert(identity, peers[identity].with_outbound(peers[identity].outbound))
            =~= peers);
    } else {
        lemma_pulls_drain_in_order(peers, identity, (count - 1) as nat);
        let middle = after_pulls(peers, identity, (count - 1) as nat);
        assert(items.skip(count - 1).drop_first() =~= items.skip(count as int));
        assert(after_outbound_pop(middle, identity) =~= peers.insert(
            identity,
            peers[identity].with_outbound(
                QueueState {
                    items: items.skip(count as int),
                    capacity: peers[identity].outbound.capacity,
                },
            ),
        ));
    }
}

/// First in, first out, per peer: after any run of sends to a connected
/// peer, the wire writer pulls what was queued before, then the payloads
/// that were accepted, each in the order it was sent.
pub proof fn lemma_sent_order_is_pulled_order(
    socket: RouterState,
    destination: Seq<u8>,
    payloads: Seq<MessageView>,
    position: nat,
)
    requires
        socket.wf(),
        socket.peers.dom().contains(destination),
        forall|i: int| 0 <= i < payloads.len() ==> (#[trigger] payloads[i]).len() >= 1,
    ensures
        ({
            let queue = socket.peers[destination].outbound;
            let line = queue.items + payloads.take(
                accepted_count(queue, payloads.len()) as int,
            );
            let sent = after_sends(socket, destination, payloads).peers;
            let pulled = after_pulls(sent, destination, position);
            position < line.len() ==> has_outbound(pulled, destination)
                && pulled[destination].outbound.items.first() == line[position as int]
        }),
{
    lemma_sends_queue_in_order(socket, destination, payloads);
    let sent = after_sends(socket, destination, payloads).peers;
    if position < sent[destination].outbound.items.len() {
        lemma_pulls_drain_in_order(sent, destination, position);
    }
}

/// A message without a payload frame is invalid whatever its destination,
/// and so is one without any frame; the socket stays as it is.
pub proof fn lemma_send_without_payload_is_invalid(socket: RouterState, message: MessageView)
    requires
        message.len() < 2,
    ensures
        socket.send_result(message) == Err::<(), SocketError>(SocketError::InvalidMessage),
        socket.after_send(message) == socket,
{
}

/// A message for an identity that is not in the directory is refused with
/// `DestinationNotFound`, and no queue of any peer changes.
pub proof fn lemma_send_to_unknown_changes_nothing(socket: RouterState, message: MessageView)
    requires
        message.len() >= 2,
        !socket.peers.dom().contains(message[0]),
    ensures
        socket.send_result(message) == Err::<(), SocketError>(SocketError::DestinationNotFound),
        socket.after_send(message) == socket,
{
}

/// After teardown the directory is empty, every send fails and leaves the
/// socket as it is, no peer has anything to deliver, so every receive fails,
/// and nobody is admitted.
pub proof fn lemma_closed_socket_refuses(
    socket: RouterState,
    message: MessageView,
    identity: Seq<u8>,
)
    ensures
        socket.closed().wf(),
        socket.closed().peers == Map::<Seq<u8>, PeerState>::empty(),
        socket.closed().send_result(message) is Err,
        socket.closed().after_send(message) == socket.closed(),
        socket.closed().idle(),
        forall|source: Seq<u8>, delivered: MessageView, next: RouterState|
            !#[trigger] socket.closed().delivers(source, delivered, next),
        socket.closed().register_result(identity) == Err::<(), SocketError>(
            SocketError::ConnectionClosed,
        ),
        socket.closed().after_register(identity) == socket.closed(),
{
}

/// No registration is lost: registering identities that differ from each
/// other and from those in the directory succeeds every time and leaves the
/// directory with exactly that many more peers, the new ones with empty
/// queues and the old ones as they were.
pub proof fn lemma_distinct_registrations_all_counted(
    socket: RouterState,
    identities: Seq<Seq<u8>>,
)
    requires
        socket.wf(),
        socket.accepting,
        identities.no_duplicates(),
        forall|i: int|
            0 <= i < identities.len() ==> !socket.peers.dom().contains(#[trigger] identities[i]),
    ensures
        after_registers(socket, identities).wf(),
        after_registers(socket, identities).accepting,
        after_registers(socket, identities).queue_capacity == socket.queue_capacity,
        after_registers(socket, identities).peers.dom() == socket.peers.dom().union(
            identities.to_set(),
        ),
        after_registers(socket, identities).peers.dom().len() == socket.peers.dom().len()
            + identities.len(),
        forall|id: Seq<u8>| #[trigger]
            socket.peers.dom().contains(id) ==> after_registers(socket, identities).peers[id]
                == socket.peers[id],
        forall|i: int|
            0 <= i < identities.len() ==> after_registers(
                socket,
                identities,
            ).peers[#[trigger] identities[i]] == PeerState::fresh(
                identities[i],
                socket.queue_capacity,
            ),
        forall|i: int|
            0 <= i < identities.len() ==> after_registers(
                socket,
                identities.take(i),
            ).register_result(#[trigger] identities[i]) == Ok::<(), SocketError>(()),
    decreases identities.len(),
{
    if identities.len() == 0 {
        assert(socket.peers.dom().union(identities.to_set()) =~= socket.peers.dom());
    } else {
        let earlier = identities.drop_last();
        let last = identities.last();
        assert forall|i: int| 0 <= i < earlier.len() implies !socket.peers.dom().contains(
            #[trigger] earlier[i],
        ) by {
            assert(earlier[i] == identities[i]);
        }
        lemma_distinct_registrations_all_counted(socket, earlier);
        let middle = after_registers(socket, earlier);
        assert(!earlier.to_set().contains(last)) by {
            if earlier.to_set().contains(last) {
                let j = choose|j: int| 0 <= j < earlier.len() && earlier[j] == last;
                assert(identities[j] == identities[identities.len() - 1]);
            }
        }
        assert(!socket.peers.dom().contains(identities[identities.len() - 1]));
        assert(middle.register_result(last) == Ok::<(), SocketError>(()));
        let after = middle.after_register(last);
        assert(after == after_registers(socket, identities));
        assert(identities.to_set() =~= earlier.to_set().insert(last)) by {
            assert forall|id: Seq<u8>| identities.to_set().contains(id) implies earlier.to_set().insert(
                last,
            ).contains(id) by {
                let j = choose|j: int| 0 <= j < identities.len() && identities[j] == id;
                if j < earlier.len() {
                    assert(earlier[j] == id);
                }
            }
            assert forall|id: Seq<u8>| earlier.to_set().insert(last).contains(
                id,
            ) implies identities.to_set().contains(id) by {
                if id == last {
                    assert(identities[identities.len() - 1] == id);
                } else {
                    let j = choose|j: int| 0 <= j < earlier.len() && earlier[j] == id;
                    assert(identities[j] == id);
                }
            }
        }
        assert(after.peers.dom() =~= socket.peers.dom().union(identities.to_set()));
        assert forall|i: int| 0 <= i < identities.len() implies after.peers[#[trigger] identities[i]]
            == PeerState::fresh(identities[i], socket.queue_capacity) by {
            if i < earlier.len() {
                assert(earlier[i] == identities[i]);
                assert(earlier.to_set().contains(earlier[i]));
            }
        }
        assert forall|i: int| 0 <= i < identities.len() implies after_registers(
            socket,
            identities.take(i),
        ).register_result(#[trigger] identities[i]) == Ok::<(), SocketError>(()) by {
            if i < earlier.len() {
                assert(identities.take(i) =~= earlier.take(i));
                assert(earlier[i] == identities[i]);
            } else {
                assert(identities.take(i) =~= earlier);
            }
        }
    }
}

} // verus!
