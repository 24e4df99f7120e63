//! The storage of one contract: the slots of the trie whose keys begin with
//! the contract's address.

use vstd::prelude::*;
use crate::hash::{empty_root, Bytes32, H256};
use crate::keys::{contract_storage_key, storage_key};
use crate::merkle::{get, trie_lookup, update, update_spec};
use crate::store::StateTrie;
use crate::vm::{Ext, Fault};

verus! {

/// What the contract reads where a lookup gave `found`: the value, which
/// must be thirty-two bytes long; thirty-two zero bytes where the trie has
/// none; nothing where the lookup failed.
pub open spec fn slot_read(found: Result<Option<Seq<u8>>, Seq<u8>>) -> Option<Seq<u8>> {
    match found {
        Ok(Some(value)) => if value.len() == 32 {
            Some(value)
        } else {
            None
        },
        Ok(None) => Some(Seq::new(32, |i: int| 0u8)),
        Err(_) => None,
    }
}

/// The storage of the contract at `address`, kept in the trie with root
/// `root` over the nodes in `database`.
#[derive(Debug)]
pub struct ContractState {
    address: H256,
    database: StateTrie,
    root: H256,
}

impl ContractState {
    /// The address of the contract.
    pub closed spec fn address_view(&self) -> Seq<u8> {
        self.address@
    }

    /// The root of the trie as the contract has left it.
    pub closed spec fn root_view(&self) -> Seq<u8> {
        self.root@
    }

    /// The nodes of the trie as the contract has left them.
    pub closed spec fn nodes(&self) -> Map<Seq<u8>, Seq<u8>> {
        self.database@
    }

    /// The storage of a contract at `address` over the empty trie.
    pub fn new(address: H256) -> (state: ContractState)
        ensures
            state.address_view() == address@,
            state.root_view() == empty_root(),
            state.nodes() == Map::<Seq<u8>, Seq<u8>>::empty(),
    {
        ContractState { address, root: H256::empty_trie_hash(), database: StateTrie::new() }
    }

    /// The storage of the contract at `address` in the trie with root
    /// `root` over the nodes in `database`.
    pub fn bind(address: H256, root: H256, database: StateTrie) -> (state: ContractState)
        ensures
            state.address_view() == address@,
            state.root_view() == root@,
            state.nodes() == database@,
    {
        ContractState { address, root, database }
    }

    /// The address of the contract.
    pub fn address(&self) -> (h: H256)
        ensures
            h@ == self.address_view(),
    {
        self.address
    }

    /// The root of the trie as the contract has left it.
    pub fn root(&self) -> (h: H256)
        ensures
            h@ == self.root_view(),
    {
        self.root
    }

    /// The root and the node store as the contract has left them.
    pub fn into_parts(self) -> (r: (H256, StateTrie))
        ensures
            r.0@ == self.root_view(),
            r.1@ == self.nodes(),
    {
        (self.root, self.database)
    }
}

impl Ext for ContractState {
    open spec fn stored(&self, key: Seq<u8>) -> Option<Seq<u8>> {
        slot_read(trie_lookup(self.root_view(), self.nodes(), storage_key(self.address_view(), key)))
    }

    open spec fn leaves(&self, key: Seq<u8>, value: Seq<u8>, after: Self, done: bool) -> bool {
        &&& after.address_view() == self.address_view()
        &&& match update_spec(self.root_view(), self.nodes(), storage_key(self.address_view(), key), value) {
            Some((root, nodes)) => done && after.root_view() == root && after.nodes() == nodes,
            None => !done && after.root_view() == self.root_view() && after.nodes() == self.nodes(),
        }
    }

    /// Reads the slot `key`: the trie is asked for the key made of the
    /// contract's address and `key`.
    fn get(&self, key: &Bytes32) -> (r: Result<Bytes32, Fault>)
        ensures
            match slot_read(
                trie_lookup(self.root_view(), self.nodes(), storage_key(self.address_view(), key@)),
            ) {
                Some(value) => r matches Ok(found) && found@ == value,
                None => r is Err,
            },
    {
        let h_key = contract_storage_key(&self.address, key);
        match get(&self.root, &self.database, h_key.as_slice()) {
            Ok(Some(value)) => {
                if value.len() != 32 {
                    return Err(Fault);
                }
                let mut ret = [0u8; 32];
                let mut i: usize = 0;
                while i < 32
                    invariant
                        i <= 32,
                        value@.len() == 32,
                        forall|j: int| 0 <= j < i ==> ret@[j] == value@[j],
                    decreases 32 - i,
                {
                    ret[i] = value[i];
                    i += 1;
                }
                assert(ret@ =~= value@);
                Ok(ret)
            },
            Ok(None) => {
                let ret = [0u8; 32];
                assert(ret@ =~= Seq::new(32, |i: int| 0u8));
                Ok(ret)
            },
            Err(_) => Err(Fault),
        }
    }

    /// Writes the slot `key`: the key made of the contract's address and
    /// `key` is set to `value` in the trie, and the change is applied to
    /// the nodes. Where that fails nothing changes.
    fn set(&mut self, key: &Bytes32, value: &Bytes32) -> (r: Result<(), Fault>)
        ensures
            final(self).address_view() == old(self).address_view(),
            match update_spec(
                old(self).root_view(),
                old(self).nodes(),
                storage_key(old(self).address_view(), key@),
                value@,
            ) {
                Some((root, nodes)) => r is Ok && final(self).root_view() == root && final(self).nodes()
                    == nodes,
                None => r is Err && final(self).root_view() == old(self).root_view() && final(self).nodes()
                    == old(self).nodes(),
            },
    {
        let h_key = contract_storage_key(&self.address, key);
        match update(&self.root, &mut self.database, h_key.as_slice(), value.as_slice()) {
            Some(root) => {
                self.root = root;
                Ok(())
            },
            None => Err(Fault),
        }
    }
}

} // verus!
