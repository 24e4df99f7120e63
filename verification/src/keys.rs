//! Derivation of trie keys from prefixes and identifiers.

use vstd::prelude::*;
use crate::bytes::append_bytes;
use crate::hash::H256;

verus! {

/// The prefix under which contract code is stored: the ASCII text `ContractCode`.
pub open spec fn code_prefix() -> Seq<u8> {
    seq![0x43u8, 0x6f, 0x6e, 0x74, 0x72, 0x61, 0x63, 0x74, 0x43, 0x6f, 0x64, 0x65]
}

/// The trie key under which the code of the contract at `address` is stored.
pub open spec fn code_key(address: Seq<u8>) -> Seq<u8> {
    code_prefix() + address
}

/// The trie key of the storage slot `key` of the contract at `address`.
pub open spec fn storage_key(address: Seq<u8>, key: Seq<u8>) -> Seq<u8> {
    address + key
}

/// Concatenates `prefix` and `key` into one trie key.
pub fn keyhash_with_prefix(prefix: &[u8], key: &[u8]) -> (h_key: Vec<u8>)
    ensures
        h_key@ == prefix@ + key@,
{
    let mut h_key: Vec<u8> = Vec::new();
    append_bytes(&mut h_key, prefix);
    append_bytes(&mut h_key, key);
    h_key
}

/// The trie key that holds the code of the contract at `address`.
pub fn contract_code_key(address: &H256) -> (k: Vec<u8>)
    ensures
        k@ == code_key(address@),
{
    let prefix: [u8; 12] = [0x43, 0x6f, 0x6e, 0x74, 0x72, 0x61, 0x63, 0x74, 0x43, 0x6f, 0x64, 0x65];
    assert(prefix@ =~= code_prefix());
    let address_bytes = address.to_vec();
    keyhash_with_prefix(prefix.as_slice(), address_bytes.as_slice())
}

/// The trie key of the storage slot `key` of the contract at `address`.
pub fn contract_storage_key(address: &H256, key: &[u8; 32]) -> (k: Vec<u8>)
    ensures
        k@ == storage_key(address@, key@),
{
    let address_bytes = address.to_vec();
    keyhash_with_prefix(address_bytes.as_slice(), key.as_slice())
}

} // verus!
