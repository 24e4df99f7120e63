//! What holds of the library as a whole, stated over the functions'
//! contracts.

use vstd::prelude::*;
use crate::block::{block_encoding, Block, Tx, TxView};
use crate::codec::{
    be_minimal, be_value, lemma_be_minimal_first, lemma_be_minimal_len, lemma_be_minimal_value,
    lemma_limit_is_pow256, rlp_uint, rlp_uint_decoded,
};
use crate::decode::{block_decoded, block_wf, lemma_block_complete, lemma_block_sound, tx_wf};
use crate::executor::{block_outcome, lemma_transfers_need_no_runs, only_transfers, txs_spec, Outcome};
use crate::guest::{calldata_in, lemma_le_bytes_prefix, lemma_le_value_of_bytes};
use crate::hash::{differ_first_at, lex_less};
use crate::keys::{code_key, code_prefix, storage_key};
use crate::uint::limit;
use crate::vm::{calldata_image, le_bytes, MAX_CALLDATA};
use crate::wire::length_limit;

verus! {

/// A block of transfers has one outcome: the same state before it and the
/// same transactions give the same root and the same nodes, or the same error.
pub proof fn transfer_blocks_are_deterministic(
    r0: Seq<u8>,
    nodes0: Map<Seq<u8>, Seq<u8>>,
    txs: Seq<TxView>,
    first: Outcome,
    second: Outcome,
)
    requires
        only_transfers(txs),
        block_outcome(r0, nodes0, txs, first),
        block_outcome(r0, nodes0, txs, second),
    ensures
        first == second,
{
    let ran1 = choose|ran: Seq<Outcome>| first == txs_spec(r0, nodes0, r0, nodes0, txs, ran);
    let ran2 = choose|ran: Seq<Outcome>| second == txs_spec(r0, nodes0, r0, nodes0, txs, ran);
    lemma_transfers_need_no_runs(r0, nodes0, r0, nodes0, txs, ran1, ran2);
}

/// The trie key of a contract's storage slot begins with the contract's
/// address: what a contract reads and writes through its storage lies under
/// its own address.
pub proof fn storage_key_begins_with_address(address: Seq<u8>, key: Seq<u8>)
    ensures
        storage_key(address, key).len() == address.len() + key.len(),
        storage_key(address, key).subrange(0, address.len() as int) == address,
        storage_key(address, key).subrange(address.len() as int, (address.len() + key.len()) as int) == key,
{
    assert(storage_key(address, key).subrange(0, address.len() as int) =~= address);
    assert(storage_key(address, key).subrange(address.len() as int, (address.len() + key.len()) as int) =~= key);
}

/// No storage slot of one contract is a storage slot of another: the trie
/// keys of two contracts with different addresses differ, whatever the slots.
pub proof fn storage_of_contracts_is_disjoint(first: Seq<u8>, slot1: Seq<u8>, second: Seq<u8>, slot2: Seq<u8>)
    requires
        first.len() == second.len(),
        first != second,
    ensures
        storage_key(first, slot1) != storage_key(second, slot2),
{
    storage_key_begins_with_address(first, slot1);
    storage_key_begins_with_address(second, slot2);
}

/// Two slots of one contract have different trie keys.
pub proof fn slots_of_a_contract_are_distinct(address: Seq<u8>, slot1: Seq<u8>, slot2: Seq<u8>)
    requires
        slot1 != slot2,
    ensures
        storage_key(address, slot1) != storage_key(address, slot2),
{
    storage_key_begins_with_address(address, slot1);
    storage_key_begins_with_address(address, slot2);
    if slot1.len() == slot2.len() {
        assert(storage_key(address, slot1).subrange(address.len() as int, (address.len() + slot1.len()) as int)
            == slot1);
    }
}

/// Accounts, contract code and contract storage do not share trie keys: an
/// account's key has 32 bytes, the code key of a contract 44, and the key of
/// a storage slot 64.
pub proof fn key_spaces_are_disjoint(account: Seq<u8>, contract: Seq<u8>, other: Seq<u8>, slot: Seq<u8>)
    requires
        account.len() == 32,
        contract.len() == 32,
        other.len() == 32,
        slot.len() == 32,
    ensures
        account != code_key(contract),
        account != storage_key(other, slot),
        code_key(contract) != storage_key(other, slot),
{
    assert(code_prefix().len() == 12);
    assert(code_key(contract).len() == 44);
    assert(storage_key(other, slot).len() == 64);
}

/// A contract finds in its memory the calldata that the host has placed
/// there: whatever the four bytes before the image and the bytes after it.
pub proof fn placed_calldata_is_found(head: Seq<u8>, calldata: Seq<u8>, rest: Seq<u8>)
    requires
        head.len() == 4,
        calldata.len() <= MAX_CALLDATA,
    ensures
        calldata_in(head + calldata_image(calldata) + rest) == Some(calldata),
{
    let memory = head + calldata_image(calldata) + rest;
    let len = calldata.len();
    lemma_le_bytes_prefix(len, 4, 32);
    lemma_le_value_of_bytes(len);
    assert(memory.subrange(4, 8) =~= le_bytes(len, 32).subrange(0, 4));
    assert(memory.subrange(36, (36 + len) as int) =~= calldata);
}

/// A balance is read back from its encoding: decoding the encoding of an
/// integer below two to the power 256 gives that integer.
pub proof fn balance_encoding_round_trips(n: nat)
    requires
        n < limit(),
    ensures
        rlp_uint_decoded(rlp_uint(n)) == Some(n),
{
    let data = be_minimal(n);
    let encoded = rlp_uint(n);
    lemma_limit_is_pow256();
    lemma_be_minimal_len(n, 32);
    lemma_be_minimal_value(n);
    if n == 0 {
        assert(encoded =~= seq![0x80u8]);
        assert(encoded.subrange(1, 1) =~= data);
    } else {
        lemma_be_minimal_first(n);
        if data.len() == 1 && data[0] < 0x80 {
            assert(encoded == data);
            assert(data.drop_last() =~= Seq::<u8>::empty());
            assert(be_value(data.drop_last()) == 0);
            assert(data.last() == data[0]);
            assert(be_value(data) == be_value(data.drop_last()) * 256 + data.last() as nat);
        } else {
            let len = data.len();
            assert(encoded =~= seq![(0x80 + len) as u8] + data);
            assert(encoded[0] == 0x80 + len);
            assert(encoded.subrange(1, (1 + len) as int) =~= data);
        }
    }
}

/// A block is read back from its encoding: decoding the encoding of a
/// block, where the encoding is shorter than two to the power 32 bytes,
/// gives that block.
pub proof fn block_encoding_round_trips(block: Block)
    requires
        block_encoding(block@).len() < length_limit(),
    ensures
        block_decoded(block_encoding(block@)) == Some(block@),
{
    assert forall|i: int| 0 <= i < block@.txns.len() implies tx_wf(#[trigger] block@.txns[i]) by {
        let tx: Tx = block.txns@[i];
        assert(block@.txns[i] == tx@);
    }
    lemma_block_complete(block@);
}

/// Bytes encode at most one block: the block that is read from bytes is
/// encoded by exactly those bytes, and so two blocks that are read from the
/// same bytes are the same.
pub proof fn decoded_block_is_the_encoded_one(bytes: Seq<u8>)
    requires
        block_decoded(bytes) is Some,
    ensures
        block_encoding(block_decoded(bytes).unwrap()) == bytes,
        block_wf(block_decoded(bytes).unwrap()),
{
    lemma_block_sound(bytes);
}

/// The first place at which two different byte strings of one length differ.
pub proof fn first_difference(a: Seq<u8>, b: Seq<u8>, upto: int) -> (i: int)
    requires
        a.len() == b.len(),
        0 <= upto <= a.len(),
        a.subrange(0, upto) != b.subrange(0, upto),
    ensures
        0 <= i < upto,
        differ_first_at(a, b, i),
    decreases upto,
{
    if upto == 0 {
        assert(a.subrange(0, 0) =~= b.subrange(0, 0));
    }
    if a.subrange(0, upto - 1) =~= b.subrange(0, upto - 1) {
        assert forall|j: int| 0 <= j < upto - 1 implies a[j] == b[j] by {
            assert(a.subrange(0, upto - 1)[j] == b.subrange(0, upto - 1)[j]);
        }
        if a[upto - 1] == b[upto - 1] {
            assert(a.subrange(0, upto) =~= b.subrange(0, upto));
        }
        upto - 1
    } else {
        first_difference(a, b, upto - 1)
    }
}

/// The order of identifiers is total: of two different identifiers one
/// comes before the other.
pub proof fn hash_order_is_total(a: Seq<u8>, b: Seq<u8>)
    requires
        a.len() == b.len(),
        a != b,
    ensures
        lex_less(a, b) || lex_less(b, a),
{
    assert(a.subrange(0, a.len() as int) =~= a);
    assert(b.subrange(0, b.len() as int) =~= b);
    let i = first_difference(a, b, a.len() as int);
    assert(differ_first_at(b, a, i));
}

/// The order of identifiers is strict: no identifier comes before itself,
/// and of two identifiers at most one comes before the other.
pub proof fn hash_order_is_strict(a: Seq<u8>, b: Seq<u8>)
    ensures
        !lex_less(a, a),
        !(lex_less(a, b) && lex_less(b, a)),
{
    if lex_less(a, b) && lex_less(b, a) {
        let i = choose|i: int| 0 <= i < a.len() && i < b.len() && differ_first_at(a, b, i) && a[i] < b[i];
        let j = choose|j: int| 0 <= j < b.len() && j < a.len() && differ_first_at(b, a, j) && b[j] < a[j];
        assert(i == j);
    }
}

/// The order of identifiers is transitive.
pub proof fn hash_order_is_transitive(a: Seq<u8>, b: Seq<u8>, c: Seq<u8>)
    requires
        lex_less(a, b),
        lex_less(b, c),
    ensures
        lex_less(a, c),
{
    let i = choose|i: int| 0 <= i < a.len() && i < b.len() && differ_first_at(a, b, i) && a[i] < b[i];
    let j = choose|j: int| 0 <= j < b.len() && j < c.len() && differ_first_at(b, c, j) && b[j] < c[j];
    let k = if i <= j {
        i
    } else {
        j
    };
    assert(differ_first_at(a, c, k));
}

} // verus!
