//! The concurrent hash map that holds the peers, and what is taken on
//! trust about it. The map is only ever reached through an exclusive
//! borrow, so between two calls its entries are those the last call left.

use dashmap::DashMap;
use vstd::prelude::*;
use crate::peer::Peer;

verus! {

/// `dashmap::DashMap`, carried as an opaque value.
#[verifier::external_type_specification]
#[verifier::external_body]
#[verifier::reject_recursive_types(K)]
#[verifier::reject_recursive_types(V)]
#[verifier::reject_recursive_types(S)]
pub struct ExDashMap<K, V, S>(DashMap<K, V, S>);

/// The entries of a peer map: each identity, by its bytes, with the peer
/// stored under it.
pub uninterp spec fn peers_of(table: DashMap<Vec<u8>, Peer>) -> Map<Seq<u8>, Peer>;

/// The peer map without entries.
pub open spec fn no_peers() -> Map<Seq<u8>, Peer> {
    Map::empty()
}

/// `DashMap::new`: the map it makes has no entry.
#[verifier::external_body]
pub(crate) fn peers_new() -> (table: DashMap<Vec<u8>, Peer>)
    ensures
        peers_of(table) == no_peers(),
{
    DashMap::new()
}

/// `DashMap::len`: the number of entries.
#[verifier::external_body]
pub(crate) fn peers_len(table: &DashMap<Vec<u8>, Peer>) -> (n: usize)
    ensures
        n == peers_of(*table).dom().len(),
{
    table.len()
}

/// `DashMap::contains_key`: whether an entry is stored under a key with
/// these bytes.
#[verifier::external_body]
pub(crate) fn peers_contains(table: &DashMap<Vec<u8>, Peer>, identity: &Vec<u8>) -> (found: bool)
    ensures
        found == peers_of(*table).dom().contains(identity@),
{
    table.contains_key(identity)
}

/// `DashMap::insert`: stores the peer under the key, in place of what was
/// stored under an equal key, and returns what it displaced.
#[verifier::external_body]
pub(crate) fn peers_put(table: &mut DashMap<Vec<u8>, Peer>, identity: Vec<u8>, peer: Peer) -> (displaced:
    Option<Peer>)
    ensures
        peers_of(*final(table)) == peers_of(*old(table)).insert(identity@, peer),
        displaced == if peers_of(*old(table)).dom().contains(identity@) {
            Some(peers_of(*old(table))[identity@])
        } else {
            None
        },
{
    table.insert(identity, peer)
}

/// `DashMap::remove`: takes out the entry under the key, if there is one,
/// and returns its value; every other entry stays.
#[verifier::external_body]
pub(crate) fn peers_take(table: &mut DashMap<Vec<u8>, Peer>, identity: &Vec<u8>) -> (taken: Option<Peer>)
    ensures
        peers_of(*final(table)) == peers_of(*old(table)).remove(identity@),
        taken == if peers_of(*old(table)).dom().contains(identity@) {
            Some(peers_of(*old(table))[identity@])
        } else {
            None
        },
{
    match table.remove(identity) {
        Some((_, peer)) => Some(peer),
        None => None,
    }
}

/// `DashMap::clear`: no entry is left.
#[verifier::external_body]
pub(crate) fn peers_clear(table: &mut DashMap<Vec<u8>, Peer>)
    ensures
        peers_of(*final(table)) == no_peers(),
{
    table.clear()
}

/// `DashMap::iter`: walks every entry once, in an order that is the map's
/// own business. The keys come back as copies: each key of the map exactly
/// once, and nothing else.
#[verifier::external_body]
pub(crate) fn peers_keys(table: &DashMap<Vec<u8>, Peer>) -> (keys: Vec<Vec<u8>>)
    ensures
        forall|i: int| 0 <= i < keys@.len() ==> peers_of(*table).dom().contains(#[trigger] keys@[i]@),
        forall|id: Seq<u8>| #[trigger]
            peers_of(*table).dom().contains(id) ==> exists|i: int|
                0 <= i < keys@.len() && #[trigger] keys@[i]@ == id,
        forall|i: int, j: int|
            0 <= i < j < keys@.len() ==> (#[trigger] keys@[i])@ != (#[trigger] keys@[j])@,
{
    table.iter().map(|entry| entry.key().clone()).collect()
}

} // verus!
