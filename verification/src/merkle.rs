//! The authenticated trie: lookups and pure-functional inserts over a node
//! store, each insert yielding a new root and the change to the store.

use std::collections::HashMap;
use vstd::prelude::*;
use crate::hash::{empty_root, H256};
use crate::store::{
    applied, apply_changes, conflicts, distinct_hashes, distinct_nodes, hashes_set, missing, nodes_map,
    novel, Change, Node, StateTrie,
};

verus! {

/// Whether `bytes` is the encoding of a trie node as the trie writes it,
/// and `hash` the digest under which the trie stores it.
pub uninterp spec fn is_trie_node(hash: Seq<u8>, bytes: Seq<u8>) -> bool;

/// What a lookup of `key` gives in the trie with root `root` over the
/// nodes `nodes`: the value, `None` where the trie has none for the key, or
/// as the error the digest of a node that the lookup needs and `nodes` lacks.
pub uninterp spec fn trie_lookup(root: Seq<u8>, nodes: Map<Seq<u8>, Seq<u8>>, key: Seq<u8>) -> Result<
    Option<Seq<u8>>,
    Seq<u8>,
>;

/// What setting `key` to `value` gives in the trie with root `root` over
/// the nodes `nodes`: the new root, the nodes that the update writes and
/// the digests of the nodes that it supersedes; or as the error the digest
/// of a node that the update needs and `nodes` lacks.
pub uninterp spec fn trie_update(
    root: Seq<u8>,
    nodes: Map<Seq<u8>, Seq<u8>>,
    key: Seq<u8>,
    value: Seq<u8>,
) -> Result<(Seq<u8>, Map<Seq<u8>, Seq<u8>>, Set<Seq<u8>>), Seq<u8>>;

/// A node that a trie operation needs is not in the store.
#[derive(Clone, Copy, Debug, PartialEq, Eq)]
pub enum TrieError {
    /// The digest of the node that is needed.
    Require(H256),
}

/// An update as the trie hands it out: the new root, the nodes to add and
/// the digests of the nodes to remove, in no particular order.
pub(crate) struct RawUpdate {
    pub root: H256,
    pub adds: Vec<Node>,
    pub removes: Vec<H256>,
}

/// Whether an update as it was handed out is the named one: the same root,
/// the same nodes to add and the same digests to remove, or the same node
/// that is needed.
pub(crate) open spec fn update_agrees(
    r: Result<RawUpdate, H256>,
    named: Result<(Seq<u8>, Map<Seq<u8>, Seq<u8>>, Set<Seq<u8>>), Seq<u8>>,
) -> bool {
    match named {
        Ok((new_root, adds, removes)) => r matches Ok(raw) && raw.root@ == new_root && nodes_map(raw.adds@)
            == adds && hashes_set(raw.removes@) == removes,
        Err(needed) => r matches Err(hash) && hash@ == needed,
    }
}

/// What an insert returns: the new root and the change set, in which the
/// nodes that the store already holds are not written again.
pub open spec fn insert_spec(
    root: Seq<u8>,
    nodes: Map<Seq<u8>, Seq<u8>>,
    key: Seq<u8>,
    value: Seq<u8>,
) -> Result<(Seq<u8>, Map<Seq<u8>, Seq<u8>>, Set<Seq<u8>>), Seq<u8>> {
    match trie_update(root, nodes, key, value) {
        Ok((new_root, adds, removes)) => Ok((new_root, novel(adds, nodes), removes)),
        Err(needed) => Err(needed),
    }
}

/// Calls `trie::get` on a hash map with the store's nodes. The result is
/// named `trie_lookup`. Beside the name the contract claims only that a
/// lookup under the root of the empty trie finds nothing, whatever the store
/// holds. The store's nodes must be nodes that the trie wrote: on other
/// bytes the decoder of `trie` panics.
#[verifier::external_body]
fn trie_get(root: &H256, store: &StateTrie, key: &[u8]) -> (r: Result<Option<Vec<u8>>, H256>)
    requires
        store.wf(),
    ensures
        match trie_lookup(root@, store@, key@) {
            Ok(Some(value)) => r matches Ok(Some(found)) && found@ == value,
            Ok(None) => r matches Ok(None),
            Err(needed) => r matches Err(hash) && hash@ == needed,
        },
        root@ == empty_root() ==> r matches Ok(None),
{
    let db: HashMap<bigint::H256, Vec<u8>> =
        store.state.iter().map(|n| (bigint::H256(n.hash.0), n.bytes.clone())).collect();
    match trie::get(bigint::H256(root.0), &&db, key) {
        Ok(found) => Ok(found.map(|value| value.to_vec())),
        Err(trie::Error::Require(hash)) => Err(H256(hash.0)),
    }
}

/// Calls `trie::insert` on a hash map with the store's nodes. The result is
/// named `trie_update`; the nodes to add and the digests to remove come back
/// as lists in no particular order, each digest once. Beside the name the
/// contract claims that every node to add is one that the trie wrote, that
/// the node of the new root is among them and its digest is not among the
/// removals, that every node to remove is one that the update has read
/// from the store, and that under the root of the empty trie the update
/// succeeds and is the update of the empty trie over no nodes at all. The
/// store's nodes must be nodes that the trie wrote: on other bytes the
/// decoder of `trie` panics.
#[verifier::external_body]
fn trie_insert(root: &H256, store: &StateTrie, key: &[u8], value: &[u8]) -> (r: Result<RawUpdate, H256>)
    requires
        store.wf(),
    ensures
        update_agrees(r, trie_update(root@, store@, key@, value@)),
        r matches Ok(raw) ==> distinct_nodes(raw.adds@) && distinct_hashes(raw.removes@) && nodes_map(
            raw.adds@,
        ).contains_key(raw.root@) && !hashes_set(raw.removes@).contains(raw.root@),
        r matches Ok(raw) ==> forall|i: int|
            0 <= i < raw.adds@.len() ==> is_trie_node(#[trigger] raw.adds@[i].hash@, raw.adds@[i].bytes@),
        r matches Ok(raw) ==> forall|i: int|
            0 <= i < raw.removes@.len() ==> store@.contains_key(#[trigger] raw.removes@[i]@),
        root@ == empty_root() ==> r is Ok && update_agrees(
            r,
            trie_update(empty_root(), Map::empty(), key@, value@),
        ),
{
    let db: HashMap<bigint::H256, Vec<u8>> =
        store.state.iter().map(|n| (bigint::H256(n.hash.0), n.bytes.clone())).collect();
    match trie::insert(bigint::H256(root.0), &&db, key, value) {
        Ok((hash, change)) => Ok(RawUpdate {
            root: H256(hash.0),
            adds: change.adds.into_iter().map(|(k, v)| Node { hash: H256(k.0), bytes: v }).collect(),
            removes: change.removes.into_iter().map(|k| H256(k.0)).collect(),
        }),
        Err(trie::Error::Require(hash)) => Err(H256(hash.0)),
    }
}

/// The value stored for `key` in the trie with root `root`, if there is one.
pub fn get(root: &H256, store: &StateTrie, key: &[u8]) -> (r: Result<Option<Vec<u8>>, TrieError>)
    ensures
        match trie_lookup(root@, store@, key@) {
            Ok(Some(value)) => r matches Ok(Some(found)) && found@ == value,
            Ok(None) => r matches Ok(None),
            Err(needed) => r matches Err(TrieError::Require(hash)) && hash@ == needed,
        },
        root@ == empty_root() ==> r matches Ok(None),
{
    proof {
        use_type_invariant(store);
    }
    match trie_get(root, store, key) {
        Ok(found) => Ok(found),
        Err(hash) => Err(TrieError::Require(hash)),
    }
}

/// Sets `key` to `value` in the trie with root `root`: the new root, and the
/// change that makes the store hold the new trie. The store itself is not
/// touched. Nodes that the store holds already are not added again.
pub fn insert(root: &H256, store: &StateTrie, key: &[u8], value: &[u8]) -> (r: Result<
    (H256, Change),
    TrieError,
>)
    requires
        value@.len() > 0,
    ensures
        match insert_spec(root@, store@, key@, value@) {
            Ok((new_root, adds, removes)) => r matches Ok((hash, change)) && hash@ == new_root
                && change.adds() == adds && change.removes() == removes,
            Err(needed) => r matches Err(TrieError::Require(hash)) && hash@ == needed,
        },
        r matches Ok((hash, change)) ==> (change.adds().contains_key(hash@) || store@.contains_key(hash@))
            && !change.removes().contains(hash@) && !missing(store@, change.adds(), change.removes()),
        root@ == empty_root() ==> r is Ok && trie_update(root@, store@, key@, value@) == trie_update(
            empty_root(),
            Map::empty(),
            key@,
            value@,
        ),
{
    proof {
        use_type_invariant(store);
    }
    match trie_insert(root, store, key, value) {
        Ok(raw) => {
            proof {
                assert forall|h: Seq<u8>| hashes_set(raw.removes@).contains(h) implies store@.contains_key(h) by {
                    let i = choose|i: int| 0 <= i < raw.removes@.len() && #[trigger] raw.removes@[i]@ == h;
                    assert(store@.contains_key(raw.removes@[i]@));
                }
            }
            let fresh = store.novel_nodes(raw.adds);
            Ok((raw.root, Change::from_parts(fresh, raw.removes)))
        },
        Err(hash) => Err(TrieError::Require(hash)),
    }
}

/// Sets `key` to `value` in the empty trie.
pub fn insert_empty(key: &[u8], value: &[u8]) -> (r: (H256, Change))
    requires
        value@.len() > 0,
    ensures
        insert_spec(empty_root(), Map::empty(), key@, value@) == Ok::<
            (Seq<u8>, Map<Seq<u8>, Seq<u8>>, Set<Seq<u8>>),
            Seq<u8>,
        >((r.0@, r.1.adds(), r.1.removes())),
{
    let store = StateTrie::new();
    let root = H256::empty_trie_hash();
    match insert(&root, &store, key, value) {
        Ok(done) => done,
        Err(_) => {
            assert(false);
            (root, Change::new())
        },
    }
}

/// The root and the nodes after `key` is set to `value` and the change is
/// applied to the nodes; `None` where a node that the update needs is not
/// there, or where the change cannot be applied. The nodes that an update
/// removes are in the store, so the change can be applied unless a node to
/// add is there with other bytes.
pub open spec fn update_spec(
    root: Seq<u8>,
    nodes: Map<Seq<u8>, Seq<u8>>,
    key: Seq<u8>,
    value: Seq<u8>,
) -> Option<(Seq<u8>, Map<Seq<u8>, Seq<u8>>)> {
    match insert_spec(root, nodes, key, value) {
        Ok((new_root, adds, removes)) => if conflicts(nodes, adds) || missing(nodes, adds, removes) {
            None
        } else {
            Some((new_root, applied(nodes, adds, removes)))
        },
        Err(_) => None,
    }
}

/// Sets `key` to `value` in the trie with root `root` and applies the
/// change to the store: the new root. Where that fails the store stays as
/// it was.
pub fn update(root: &H256, store: &mut StateTrie, key: &[u8], value: &[u8]) -> (r: Option<H256>)
    requires
        value@.len() > 0,
    ensures
        match update_spec(root@, old(store)@, key@, value@) {
            Some((new_root, nodes)) => r matches Some(hash) && hash@ == new_root && final(store)@ == nodes,
            None => r is None && final(store)@ == old(store)@,
        },
        r matches Some(hash) ==> final(store)@.contains_key(hash@),
        root@ == empty_root() && old(store)@ == Map::<Seq<u8>, Seq<u8>>::empty() ==> r is Some,
{
    match insert(root, store, key, value) {
        Ok((hash, change)) => match apply_changes(store, change) {
            Ok(()) => Some(hash),
            Err(_) => None,
        },
        Err(_) => None,
    }
}

} // verus!
