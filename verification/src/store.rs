//! The node store: a map from the digest of a trie node to its bytes, and
//! the change sets that trie updates apply to it.

use vstd::prelude::*;
use crate::bytes::{bytes_equal, copy_bytes};
use crate::hash::H256;
use crate::merkle::is_trie_node;

verus! {

/// A trie node: its bytes, and the digest under which it is stored.
#[derive(Debug)]
pub struct Node {
    pub hash: H256,
    pub bytes: Vec<u8>,
}

/// The map that a list of nodes stands for: digest to bytes, a later node
/// taking the place of an earlier one with the same digest.
pub open spec fn nodes_map(s: Seq<Node>) -> Map<Seq<u8>, Seq<u8>>
    decreases s.len(),
{
    if s.len() == 0 {
        Map::empty()
    } else {
        nodes_map(s.drop_last()).insert(s.last().hash@, s.last().bytes@)
    }
}

/// No two nodes of the list have the same digest.
pub open spec fn distinct_nodes(s: Seq<Node>) -> bool {
    forall|i: int, j: int| 0 <= i < j < s.len() ==> s[i].hash@ != s[j].hash@
}

/// Every node of the list is a node as the trie writes it.
pub open spec fn all_trie_nodes(s: Seq<Node>) -> bool {
    forall|i: int| 0 <= i < s.len() ==> is_trie_node(#[trigger] s[i].hash@, s[i].bytes@)
}

/// No digest occurs twice in the list.
pub open spec fn distinct_hashes(s: Seq<H256>) -> bool {
    forall|i: int, j: int| 0 <= i < j < s.len() ==> s[i]@ != s[j]@
}

/// The set of the digests in the list.
pub open spec fn hashes_set(s: Seq<H256>) -> Set<Seq<u8>> {
    Set::new(|h: Seq<u8>| exists|i: int| 0 <= i < s.len() && #[trigger] s[i]@ == h)
}

/// Some node to add is already stored under its digest with other bytes.
pub open spec fn conflicts(nodes: Map<Seq<u8>, Seq<u8>>, adds: Map<Seq<u8>, Seq<u8>>) -> bool {
    exists|k: Seq<u8>| #[trigger] adds.contains_key(k) && nodes.contains_key(k) && nodes[k] != adds[k]
}

/// Some digest to remove is neither stored nor added.
pub open spec fn missing(
    nodes: Map<Seq<u8>, Seq<u8>>,
    adds: Map<Seq<u8>, Seq<u8>>,
    removes: Set<Seq<u8>>,
) -> bool {
    exists|k: Seq<u8>| #[trigger] removes.contains(k) && !nodes.contains_key(k) && !adds.contains_key(k)
}

/// The store after a change: the additions put in, then the removals taken out.
pub open spec fn applied(
    nodes: Map<Seq<u8>, Seq<u8>>,
    adds: Map<Seq<u8>, Seq<u8>>,
    removes: Set<Seq<u8>>,
) -> Map<Seq<u8>, Seq<u8>> {
    nodes.union_prefer_right(adds).remove_keys(removes)
}

/// The additions that the store does not hold yet: those stored already
/// under the same digest with the same bytes are left out.
pub open spec fn novel(adds: Map<Seq<u8>, Seq<u8>>, nodes: Map<Seq<u8>, Seq<u8>>) -> Map<
    Seq<u8>,
    Seq<u8>,
> {
    adds.remove_keys(Set::new(|k: Seq<u8>| nodes.contains_key(k) && adds.contains_key(k) && nodes[k] == adds[k]))
}

/// Why a change could not be applied to a store.
#[derive(Clone, Copy, Debug, PartialEq, Eq)]
pub enum StoreError {
    /// A node to add is stored under its digest with other bytes.
    Conflict,
    /// A node to remove is not in the store.
    Missing,
}

/// What a trie update does to the node store: the nodes to add and the
/// digests of the nodes to remove.
#[derive(Debug)]
pub struct Change {
    pub(crate) adds: Vec<Node>,
    pub(crate) removes: Vec<H256>,
}

/// The node store: the bytes of each trie node under its digest.
#[derive(Debug)]
pub struct StateTrie {
    pub(crate) state: Vec<Node>,
}

/// A key is in the map of a list exactly if some node of the list has it.
pub proof fn lemma_nodes_map_contains(s: Seq<Node>, k: Seq<u8>)
    ensures
        nodes_map(s).contains_key(k) <==> exists|i: int| 0 <= i < s.len() && #[trigger] s[i].hash@ == k,
    decreases s.len(),
{
    if s.len() > 0 {
        lemma_nodes_map_contains(s.drop_last(), k);
        if nodes_map(s).contains_key(k) {
            if s.last().hash@ == k {
                assert(s[s.len() - 1].hash@ == k);
            } else {
                let i = choose|i: int| 0 <= i < s.drop_last().len() && #[trigger] s.drop_last()[i].hash@ == k;
                assert(s[i].hash@ == k);
            }
        }
        if exists|i: int| 0 <= i < s.len() && #[trigger] s[i].hash@ == k {
            let i = choose|i: int| 0 <= i < s.len() && #[trigger] s[i].hash@ == k;
            if i < s.len() - 1 {
                assert(s.drop_last()[i].hash@ == k);
            }
        }
    }
}

/// In a list without repeated digests, the map gives each node's bytes
/// under its digest.
pub proof fn lemma_nodes_map_index(s: Seq<Node>, i: int)
    requires
        distinct_nodes(s),
        0 <= i < s.len(),
    ensures
        nodes_map(s).contains_key(s[i].hash@),
        nodes_map(s)[s[i].hash@] == s[i].bytes@,
    decreases s.len(),
{
    if i < s.len() - 1 {
        assert(s.drop_last()[i] == s[i]);
        lemma_nodes_map_index(s.drop_last(), i);
    }
}

/// Pushing a node puts it into the map.
pub proof fn lemma_nodes_map_push(s: Seq<Node>, n: Node)
    ensures
        nodes_map(s.push(n)) == nodes_map(s).insert(n.hash@, n.bytes@),
{
    assert(s.push(n).drop_last() =~= s);
}

/// In a list without repeated digests, removing a node takes its digest
/// out of the map and leaves the rest.
pub proof fn lemma_nodes_map_remove(s: Seq<Node>, i: int)
    requires
        distinct_nodes(s),
        0 <= i < s.len(),
    ensures
        nodes_map(s.remove(i)) == nodes_map(s).remove(s[i].hash@),
        distinct_nodes(s.remove(i)),
    decreases s.len(),
{
    let t = s.remove(i);
    if i == s.len() - 1 {
        assert(t =~= s.drop_last());
        lemma_nodes_map_contains(s.drop_last(), s[i].hash@);
        assert(nodes_map(t) =~= nodes_map(s).remove(s[i].hash@));
    } else {
        assert(t.drop_last() =~= s.drop_last().remove(i));
        assert(t.last() == s.last());
        assert(s.drop_last()[i] == s[i]);
        lemma_nodes_map_remove(s.drop_last(), i);
        assert(nodes_map(t) =~= nodes_map(s).remove(s[i].hash@));
    }
}

/// Lists whose nodes agree in digest and bytes stand for the same map.
pub proof fn lemma_nodes_map_same(s: Seq<Node>, t: Seq<Node>)
    requires
        s.len() == t.len(),
        forall|i: int| 0 <= i < s.len() ==> s[i].hash@ == t[i].hash@ && s[i].bytes@ == t[i].bytes@,
    ensures
        nodes_map(s) == nodes_map(t),
    decreases s.len(),
{
    if s.len() > 0 {
        lemma_nodes_map_same(s.drop_last(), t.drop_last());
    }
}

/// The index of the node with digest `hash`, if the list has one.
pub(crate) fn find_node(nodes: &Vec<Node>, hash: &H256) -> (r: Option<usize>)
    ensures
        match r {
            Some(p) => p < nodes@.len() && nodes@[p as int].hash@ == hash@,
            None => forall|i: int| 0 <= i < nodes@.len() ==> nodes@[i].hash@ != hash@,
        },
{
    let mut i: usize = 0;
    while i < nodes.len()
        invariant
            i <= nodes@.len(),
            forall|j: int| 0 <= j < i ==> nodes@[j].hash@ != hash@,
        decreases nodes@.len() - i,
    {
        if nodes[i].hash.same(hash) {
            return Some(i);
        }
        i += 1;
    }
    None
}

/// A copy of the list, node by node.
pub(crate) fn copy_nodes(nodes: &Vec<Node>) -> (out: Vec<Node>)
    ensures
        out@.len() == nodes@.len(),
        forall|i: int| 0 <= i < out@.len() ==> out@[i].hash@ == nodes@[i].hash@ && out@[i].bytes@ == nodes@[i].bytes@,
        nodes_map(out@) == nodes_map(nodes@),
        distinct_nodes(nodes@) ==> distinct_nodes(out@),
        all_trie_nodes(nodes@) ==> all_trie_nodes(out@),
{
    let mut out: Vec<Node> = Vec::with_capacity(nodes.len());
    let mut i: usize = 0;
    while i < nodes.len()
        invariant
            i <= nodes@.len(),
            out@.len() == i,
            forall|j: int| 0 <= j < i ==> out@[j].hash@ == nodes@[j].hash@ && out@[j].bytes@ == nodes@[j].bytes@,
        decreases nodes@.len() - i,
    {
        let bytes = copy_bytes(nodes[i].bytes.as_slice());
        out.push(Node { hash: nodes[i].hash, bytes });
        i += 1;
    }
    proof {
        lemma_nodes_map_same(out@, nodes@);
        if all_trie_nodes(nodes@) {
            assert forall|j: int| 0 <= j < out@.len() implies is_trie_node(
                #[trigger] out@[j].hash@,
                out@[j].bytes@,
            ) by {
                assert(is_trie_node(nodes@[j].hash@, nodes@[j].bytes@));
            }
        }
    }
    out
}

impl Change {
    /// Whether the change is one that a store can take: no digest twice
    /// among the additions or among the removals, and every addition a node
    /// as the trie writes it.
    #[verifier::type_invariant]
    pub closed spec fn wf(&self) -> bool {
        &&& distinct_nodes(self.adds@)
        &&& all_trie_nodes(self.adds@)
        &&& distinct_hashes(self.removes@)
    }

    /// The nodes to add, by digest.
    pub closed spec fn adds(&self) -> Map<Seq<u8>, Seq<u8>> {
        nodes_map(self.adds@)
    }

    /// The digests of the nodes to remove.
    pub closed spec fn removes(&self) -> Set<Seq<u8>> {
        hashes_set(self.removes@)
    }

    /// The change that adds and removes nothing.
    pub fn new() -> (c: Change)
        ensures
            c.adds() == Map::<Seq<u8>, Seq<u8>>::empty(),
            c.removes() == Set::<Seq<u8>>::empty(),
    {
        let c = Change { adds: Vec::new(), removes: Vec::new() };
        assert(c.removes() =~= Set::<Seq<u8>>::empty());
        c
    }

    /// The change made of the given additions and removals.
    pub(crate) fn from_parts(adds: Vec<Node>, removes: Vec<H256>) -> (c: Change)
        requires
            distinct_nodes(adds@),
            all_trie_nodes(adds@),
            distinct_hashes(removes@),
        ensures
            c.adds() == nodes_map(adds@),
            c.removes() == hashes_set(removes@),
    {
        Change { adds, removes }
    }

    /// Whether the change adds nothing and removes nothing.
    pub fn is_empty(&self) -> (r: bool)
        ensures
            r == (self.adds() == Map::<Seq<u8>, Seq<u8>>::empty() && self.removes() == Set::<
                Seq<u8>,
            >::empty()),
    {
        proof {
            if self.adds@.len() > 0 {
                lemma_nodes_map_contains(self.adds@, self.adds@[0].hash@);
                assert(self.adds().contains_key(self.adds@[0].hash@));
            }
            if self.removes@.len() > 0 {
                assert(self.removes().contains(self.removes@[0]@));
            } else {
                assert(self.removes() =~= Set::<Seq<u8>>::empty());
            }
        }
        self.adds.len() == 0 && self.removes.len() == 0
    }

    /// How many nodes the change adds.
    pub fn adds_len(&self) -> (n: usize)
        ensures
            n == self.adds().dom().len(),
    {
        proof {
            use_type_invariant(self);
            lemma_nodes_map_len(self.adds@);
        }
        self.adds.len()
    }

    /// How many nodes the change removes.
    pub fn removes_len(&self) -> (n: usize)
        ensures
            n == self.removes().len(),
    {
        proof {
            use_type_invariant(self);
            lemma_hashes_set_len(self.removes@);
        }
        self.removes.len()
    }

    /// Whether the change adds a node under `hash`.
    pub fn adds_node(&self, hash: &H256) -> (r: bool)
        ensures
            r == self.adds().contains_key(hash@),
    {
        proof {
            lemma_nodes_map_contains(self.adds@, hash@);
        }
        find_node(&self.adds, hash).is_some()
    }

    /// Whether the change removes the node under `hash`.
    pub fn removes_node(&self, hash: &H256) -> (r: bool)
        ensures
            r == self.removes().contains(hash@),
    {
        find_hash(&self.removes, hash).is_some()
    }
}

/// The index of `hash` in the list, if it is there.
pub(crate) fn find_hash(hashes: &Vec<H256>, hash: &H256) -> (r: Option<usize>)
    ensures
        match r {
            Some(p) => p < hashes@.len() && hashes@[p as int]@ == hash@,
            None => forall|i: int| 0 <= i < hashes@.len() ==> hashes@[i]@ != hash@,
        },
{
    let mut i: usize = 0;
    while i < hashes.len()
        invariant
            i <= hashes@.len(),
            forall|j: int| 0 <= j < i ==> hashes@[j]@ != hash@,
        decreases hashes@.len() - i,
    {
        if hashes[i].same(hash) {
            return Some(i);
        }
        i += 1;
    }
    None
}

/// A list without repeated digests has as many nodes as its map has keys.
pub proof fn lemma_nodes_map_len(s: Seq<Node>)
    requires
        distinct_nodes(s),
    ensures
        nodes_map(s).dom().finite(),
        nodes_map(s).dom().len() == s.len(),
    decreases s.len(),
{
    if s.len() > 0 {
        lemma_nodes_map_len(s.drop_last());
        lemma_nodes_map_contains(s.drop_last(), s.last().hash@);
        assert(nodes_map(s).dom() =~= nodes_map(s.drop_last()).dom().insert(s.last().hash@));
    } else {
        assert(nodes_map(s).dom() =~= Set::<Seq<u8>>::empty());
    }
}

/// A list without repeated digests has as many entries as its set has members.
pub proof fn lemma_hashes_set_len(s: Seq<H256>)
    requires
        distinct_hashes(s),
    ensures
        hashes_set(s).finite(),
        hashes_set(s).len() == s.len(),
    decreases s.len(),
{
    if s.len() > 0 {
        lemma_hashes_set_len(s.drop_last());
        lemma_hashes_set_push(s.drop_last(), s.last());
        assert(s.drop_last().push(s.last()) =~= s);
        assert(!hashes_set(s.drop_last()).contains(s.last()@));
    } else {
        assert(hashes_set(s) =~= Set::<Seq<u8>>::empty());
    }
}

/// Pushing a digest puts it into the set.
pub proof fn lemma_hashes_set_push(s: Seq<H256>, h: H256)
    ensures
        hashes_set(s.push(h)) == hashes_set(s).insert(h@),
{
    let t = s.push(h);
    assert forall|k: Seq<u8>| hashes_set(t).contains(k) <==> hashes_set(s).insert(h@).contains(k) by {
        if hashes_set(t).contains(k) {
            let i = choose|i: int| 0 <= i < t.len() && #[trigger] t[i]@ == k;
            if i < s.len() {
                assert(s[i]@ == k);
            }
        }
        if hashes_set(s).contains(k) {
            let i = choose|i: int| 0 <= i < s.len() && #[trigger] s[i]@ == k;
            assert(t[i]@ == k);
        }
        if k == h@ {
            assert(t[s.len() as int]@ == k);
        }
    }
    assert(hashes_set(t) =~= hashes_set(s).insert(h@));
}

impl View for StateTrie {
    type V = Map<Seq<u8>, Seq<u8>>;

    closed spec fn view(&self) -> Map<Seq<u8>, Seq<u8>> {
        nodes_map(self.state@)
    }
}

impl StateTrie {
    /// What holds of every store: no digest is stored twice, and every
    /// stored node is a node as the trie writes it.
    #[verifier::type_invariant]
    pub closed spec fn wf(&self) -> bool {
        &&& distinct_nodes(self.state@)
        &&& all_trie_nodes(self.state@)
    }

    /// The empty store.
    pub fn new() -> (s: StateTrie)
        ensures
            s@ == Map::<Seq<u8>, Seq<u8>>::empty(),
    {
        StateTrie { state: Vec::new() }
    }

    /// How many nodes are stored.
    pub fn len(&self) -> (n: usize)
        ensures
            n == self@.dom().len(),
    {
        proof {
            use_type_invariant(self);
            lemma_nodes_map_len(self.state@);
        }
        self.state.len()
    }

    /// Whether a node is stored under `hash`.
    pub fn contains(&self, hash: &H256) -> (r: bool)
        ensures
            r == self@.contains_key(hash@),
    {
        proof {
            lemma_nodes_map_contains(self.state@, hash@);
        }
        find_node(&self.state, hash).is_some()
    }

    /// The bytes of the node stored under `hash`, if there is one.
    pub fn get(&self, hash: &H256) -> (r: Option<Vec<u8>>)
        ensures
            match r {
                Some(bytes) => self@.contains_key(hash@) && bytes@ == self@[hash@],
                None => !self@.contains_key(hash@),
            },
    {
        proof {
            use_type_invariant(self);
            lemma_nodes_map_contains(self.state@, hash@);
        }
        match find_node(&self.state, hash) {
            Some(p) => {
                proof {
                    lemma_nodes_map_index(self.state@, p as int);
                }
                Some(copy_bytes(self.state[p].bytes.as_slice()))
            },
            None => None,
        }
    }

    /// The digests of the stored nodes, in no particular order.
    pub fn hashes(&self) -> (r: Vec<H256>)
        ensures
            hashes_set(r@) == self@.dom(),
            r@.len() == self@.dom().len(),
    {
        let mut r: Vec<H256> = Vec::with_capacity(self.state.len());
        let mut i: usize = 0;
        while i < self.state.len()
            invariant
                i <= self.state@.len(),
                r@.len() == i,
                forall|j: int| 0 <= j < i ==> r@[j]@ == self.state@[j].hash@,
            decreases self.state@.len() - i,
        {
            r.push(self.state[i].hash);
            i += 1;
        }
        proof {
            use_type_invariant(self);
            lemma_nodes_map_len(self.state@);
            assert forall|k: Seq<u8>| hashes_set(r@).contains(k) <==> self@.dom().contains(k) by {
                lemma_nodes_map_contains(self.state@, k);
                if hashes_set(r@).contains(k) {
                    let j = choose|j: int| 0 <= j < r@.len() && #[trigger] r@[j]@ == k;
                    assert(self.state@[j].hash@ == k);
                }
                if self@.dom().contains(k) {
                    let j = choose|j: int| 0 <= j < self.state@.len() && #[trigger] self.state@[j].hash@ == k;
                    assert(r@[j]@ == k);
                }
            }
            assert(hashes_set(r@) =~= self@.dom());
        }
        r
    }

    /// Of the nodes in `adds`, those that the store does not hold yet with
    /// the same bytes.
    pub(crate) fn novel_nodes(&self, adds: Vec<Node>) -> (out: Vec<Node>)
        requires
            distinct_nodes(adds@),
            all_trie_nodes(adds@),
        ensures
            distinct_nodes(out@),
            all_trie_nodes(out@),
            nodes_map(out@) == novel(nodes_map(adds@), self@),
    {
        let mut out: Vec<Node> = Vec::new();
        let mut i: usize = 0;
        proof {
            use_type_invariant(self);
            assert(adds@.take(0) =~= Seq::<Node>::empty());
            assert(nodes_map(out@) =~= novel(nodes_map(adds@.take(0)), self@));
        }
        while i < adds.len()
            invariant
                i <= adds@.len(),
                distinct_nodes(adds@),
                all_trie_nodes(adds@),
                distinct_nodes(self.state@),
                distinct_nodes(out@),
                all_trie_nodes(out@),
                nodes_map(out@) == novel(nodes_map(adds@.take(i as int)), self@),
                forall|j: int| 0 <= j < out@.len() ==> exists|l: int| 0 <= l < i && adds@[l].hash@ == (#[trigger] out@[j]).hash@,
            decreases adds@.len() - i,
        {
            let ghost done = adds@.take(i as int);
            let ghost k = adds@[i as int].hash@;
            let ghost v = adds@[i as int].bytes@;
            proof {
                assert(adds@.take(i + 1) =~= done.push(adds@[i as int]));
                lemma_nodes_map_push(done, adds@[i as int]);
                lemma_nodes_map_contains(done, k);
                lemma_nodes_map_contains(self.state@, k);
                lemma_nodes_map_contains(out@, k);
                assert(!nodes_map(done).contains_key(k)) by {
                    if nodes_map(done).contains_key(k) {
                        let l = choose|l: int| 0 <= l < done.len() && #[trigger] done[l].hash@ == k;
                        assert(adds@[l].hash@ == k);
                    }
                }
                assert(!nodes_map(out@).contains_key(k)) by {
                    if nodes_map(out@).contains_key(k) {
                        let j = choose|j: int| 0 <= j < out@.len() && #[trigger] out@[j].hash@ == k;
                        let l = choose|l: int| 0 <= l < i && adds@[l].hash@ == out@[j].hash@;
                        assert(adds@[l].hash@ == adds@[i as int].hash@);
                    }
                }
            }
            let held = match find_node(&self.state, &adds[i].hash) {
                Some(p) => {
                    proof {
                        lemma_nodes_map_index(self.state@, p as int);
                    }
                    bytes_equal(self.state[p].bytes.as_slice(), adds[i].bytes.as_slice())
                },
                None => false,
            };
            if !held {
                let bytes = copy_bytes(adds[i].bytes.as_slice());
                let node = Node { hash: adds[i].hash, bytes };
                proof {
                    lemma_nodes_map_push(out@, node);
                    assert(is_trie_node(adds@[i as int].hash@, adds@[i as int].bytes@));
                    assert(nodes_map(out@).insert(k, v) =~= novel(nodes_map(done).insert(k, v), self@));
                }
                let ghost before = out@;
                out.push(node);
                proof {
                    assert forall|j: int| 0 <= j < out@.len() implies exists|l: int|
                        0 <= l < i + 1 && adds@[l].hash@ == (#[trigger] out@[j]).hash@ by {
                        if j < before.len() {
                            assert(out@[j] == before[j]);
                            let l = choose|l: int| 0 <= l < i && adds@[l].hash@ == before[j].hash@;
                            assert(adds@[l].hash@ == out@[j].hash@);
                        } else {
                            assert(adds@[i as int].hash@ == out@[j].hash@);
                        }
                    }
                    assert forall|a: int, b: int| 0 <= a < b < out@.len() implies out@[a].hash@ != out@[b].hash@ by {
                        if b == before.len() {
                            assert(before[a].hash@ != k);
                        }
                    }
                }
            } else {
                proof {
                    assert(nodes_map(out@) =~= novel(nodes_map(done).insert(k, v), self@));
                }
            }
            i += 1;
        }
        proof {
            assert(adds@.take(adds@.len() as int) =~= adds@);
        }
        out
    }
}

impl Clone for StateTrie {
    fn clone(&self) -> (r: StateTrie)
        ensures
            r@ == self@,
    {
        proof {
            use_type_invariant(self);
        }
        StateTrie { state: copy_nodes(&self.state) }
    }
}

impl Default for StateTrie {
    fn default() -> (s: StateTrie)
        ensures
            s@ == Map::<Seq<u8>, Seq<u8>>::empty(),
    {
        StateTrie::new()
    }
}

/// Applies the additions and then the removals of `changes` to the store.
/// An addition already stored with the same bytes changes nothing. Where an
/// addition is stored with other bytes, or a removal is not in the store,
/// nothing is applied and the store stays as it was.
pub fn apply_changes(map: &mut StateTrie, changes: Change) -> (r: Result<(), StoreError>)
    ensures
        match r {
            Ok(()) => {
                &&& !conflicts(old(map)@, changes.adds())
                &&& !missing(old(map)@, changes.adds(), changes.removes())
                &&& final(map)@ == applied(old(map)@, changes.adds(), changes.removes())
            },
            Err(StoreError::Conflict) => conflicts(old(map)@, changes.adds()) && final(map)@ == old(map)@,
            Err(StoreError::Missing) => {
                &&& !conflicts(old(map)@, changes.adds())
                &&& missing(old(map)@, changes.adds(), changes.removes())
                &&& final(map)@ == old(map)@
            },
        },
{
    proof {
        use_type_invariant(&*map);
        use_type_invariant(&changes);
    }
    let ghost base = map@;
    let ghost adds_map = changes.adds();
    let mut next = copy_nodes(&map.state);
    let mut i: usize = 0;
    proof {
        assert(changes.adds@.take(0) =~= Seq::<Node>::empty());
        assert(nodes_map(next@) =~= base.union_prefer_right(nodes_map(changes.adds@.take(0))));
    }
    while i < changes.adds.len()
        invariant
            i <= changes.adds@.len(),
            distinct_nodes(changes.adds@),
            all_trie_nodes(changes.adds@),
            distinct_nodes(next@),
            all_trie_nodes(next@),
            adds_map == nodes_map(changes.adds@),
            nodes_map(next@) == base.union_prefer_right(nodes_map(changes.adds@.take(i as int))),
            !conflicts(base, nodes_map(changes.adds@.take(i as int))),
            *map == *old(map),
            base == map@,
        decreases changes.adds@.len() - i,
    {
        let ghost done = changes.adds@.take(i as int);
        let ghost k = changes.adds@[i as int].hash@;
        let ghost v = changes.adds@[i as int].bytes@;
        proof {
            assert(changes.adds@.take(i + 1) =~= done.push(changes.adds@[i as int]));
            lemma_nodes_map_push(done, changes.adds@[i as int]);
            lemma_nodes_map_contains(done, k);
            lemma_nodes_map_contains(next@, k);
            lemma_nodes_map_index(changes.adds@, i as int);
            assert(!nodes_map(done).contains_key(k)) by {
                if nodes_map(done).contains_key(k) {
                    let l = choose|l: int| 0 <= l < done.len() && #[trigger] done[l].hash@ == k;
                    assert(changes.adds@[l].hash@ == k);
                }
            }
        }
        match find_node(&next, &changes.adds[i].hash) {
            Some(p) => {
                proof {
                    lemma_nodes_map_index(next@, p as int);
                }
                if !bytes_equal(next[p].bytes.as_slice(), changes.adds[i].bytes.as_slice()) {
                    proof {
                        assert(base.contains_key(k) && base[k] != adds_map[k] && adds_map.contains_key(k));
                    }
                    return Err(StoreError::Conflict);
                }
                proof {
                    assert(nodes_map(next@) =~= base.union_prefer_right(nodes_map(done).insert(k, v)));
                    assert(!conflicts(base, nodes_map(done).insert(k, v))) by {
                        assert forall|k2: Seq<u8>| !(#[trigger] nodes_map(done).insert(k, v).contains_key(k2)
                            && base.contains_key(k2) && base[k2] != nodes_map(done).insert(k, v)[k2]) by {
                            if k2 != k && nodes_map(done).contains_key(k2) {
                                assert(!(base.contains_key(k2) && base[k2] != nodes_map(done)[k2]));
                            }
                        }
                    }
                }
            },
            None => {
                let bytes = copy_bytes(changes.adds[i].bytes.as_slice());
                let node = Node { hash: changes.adds[i].hash, bytes };
                let ghost before = next@;
                proof {
                    lemma_nodes_map_push(next@, node);
                    assert(is_trie_node(changes.adds@[i as int].hash@, changes.adds@[i as int].bytes@));
                    assert(!base.contains_key(k));
                }
                next.push(node);
                proof {
                    assert(nodes_map(next@) =~= base.union_prefer_right(nodes_map(done).insert(k, v)));
                    assert forall|a: int, b: int| 0 <= a < b < next@.len() implies next@[a].hash@ != next@[b].hash@ by {
                        if b == before.len() {
                            assert(before[a].hash@ != k);
                        }
                    }
                    assert(!conflicts(base, nodes_map(done).insert(k, v))) by {
                        assert forall|k2: Seq<u8>| !(#[trigger] nodes_map(done).insert(k, v).contains_key(k2)
                            && base.contains_key(k2) && base[k2] != nodes_map(done).insert(k, v)[k2]) by {
                            if k2 != k && nodes_map(done).contains_key(k2) {
                                assert(!(base.contains_key(k2) && base[k2] != nodes_map(done)[k2]));
                            }
                        }
                    }
                }
            },
        }
        i += 1;
    }
    proof {
        assert(changes.adds@.take(changes.adds@.len() as int) =~= changes.adds@);
    }
    let ghost full = base.union_prefer_right(adds_map);
    let mut j: usize = 0;
    proof {
        assert(hashes_set(changes.removes@.take(0)) =~= Set::<Seq<u8>>::empty());
        assert(nodes_map(next@) =~= full.remove_keys(hashes_set(changes.removes@.take(0))));
    }
    while j < changes.removes.len()
        invariant
            j <= changes.removes@.len(),
            distinct_hashes(changes.removes@),
            distinct_nodes(next@),
            all_trie_nodes(next@),
            full == base.union_prefer_right(adds_map),
            nodes_map(next@) == full.remove_keys(hashes_set(changes.removes@.take(j as int))),
            forall|l: int| 0 <= l < j ==> full.contains_key(#[trigger] changes.removes@[l]@),
            adds_map == changes.adds(),
            !conflicts(base, adds_map),
            *map == *old(map),
            base == map@,
        decreases changes.removes@.len() - j,
    {
        let ghost gone = changes.removes@.take(j as int);
        let ghost k = changes.removes@[j as int]@;
        proof {
            assert(changes.removes@.take(j + 1) =~= gone.push(changes.removes@[j as int]));
            lemma_hashes_set_push(gone, changes.removes@[j as int]);
            lemma_nodes_map_contains(next@, k);
            assert(!hashes_set(gone).contains(k)) by {
                if hashes_set(gone).contains(k) {
                    let l = choose|l: int| 0 <= l < gone.len() && #[trigger] gone[l]@ == k;
                    assert(changes.removes@[l]@ == k);
                }
            }
        }
        match find_node(&next, &changes.removes[j]) {
            Some(p) => {
                proof {
                    lemma_nodes_map_remove(next@, p as int);
                    lemma_nodes_map_index(next@, p as int);
                }
                let ghost before = next@;
                let _ = next.remove(p);
                proof {
                    assert(nodes_map(next@) =~= full.remove_keys(hashes_set(gone).insert(k)));
                    assert forall|a: int| 0 <= a < next@.len() implies is_trie_node(
                        #[trigger] next@[a].hash@,
                        next@[a].bytes@,
                    ) by {
                        if a < p {
                            assert(next@[a] == before[a]);
                        } else {
                            assert(next@[a] == before[a + 1]);
                        }
                    }
                }
            },
            None => {
                proof {
                    assert(!full.contains_key(k));
                    assert(changes.removes().contains(k)) by {
                        assert(changes.removes@[j as int]@ == k);
                    }
                    assert(!base.contains_key(k) && !adds_map.contains_key(k));
                }
                return Err(StoreError::Missing);
            },
        }
        j += 1;
    }
    proof {
        assert(changes.removes@.take(changes.removes@.len() as int) =~= changes.removes@);
        assert(!missing(base, adds_map, changes.removes())) by {
            assert forall|k: Seq<u8>| !(#[trigger] changes.removes().contains(k) && !base.contains_key(k)
                && !adds_map.contains_key(k)) by {
                if changes.removes().contains(k) {
                    let l = choose|l: int| 0 <= l < changes.removes@.len() && #[trigger] changes.removes@[l]@ == k;
                    assert(full.contains_key(changes.removes@[l]@));
                }
            }
        }
    }
    map.state = next;
    Ok(())
}

} // verus!
