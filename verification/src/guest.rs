//! The contract's side of the interface between host and contract: how a
//! contract finds its calldata in its memory, and what the flipper contract
//! does to a storage slot.

use vstd::prelude::*;
use crate::hash::Bytes32;
use crate::vm::{le_bytes, CALLDATA_OFFSET, LENGTH_OFFSET};

verus! {

/// The number that `bytes` stand for, read little-endian.
pub open spec fn le_value(bytes: Seq<u8>) -> nat
    decreases bytes.len(),
{
    if bytes.len() == 0 {
        0
    } else {
        bytes[0] as nat + 256 * le_value(bytes.drop_first())
    }
}

/// The calldata that a contract finds in its memory: the four bytes at
/// `LENGTH_OFFSET` hold its length, little-endian, and it begins at
/// `CALLDATA_OFFSET`. There is none where the memory is too short for it.
pub open spec fn calldata_in(memory: Seq<u8>) -> Option<Seq<u8>> {
    if memory.len() < CALLDATA_OFFSET {
        None
    } else {
        let len = le_value(memory.subrange(LENGTH_OFFSET as int, LENGTH_OFFSET + 4));
        if CALLDATA_OFFSET + len > memory.len() {
            None
        } else {
            Some(memory.subrange(CALLDATA_OFFSET as int, CALLDATA_OFFSET + len))
        }
    }
}

/// The calldata that a contract finds in its memory.
pub fn calldata(memory: &[u8]) -> (r: Option<Vec<u8>>)
    ensures
        match calldata_in(memory@) {
            Some(data) => r matches Some(found) && found@ == data,
            None => r is None,
        },
{
    if memory.len() < CALLDATA_OFFSET {
        return None;
    }
    let ghost field = memory@.subrange(LENGTH_OFFSET as int, LENGTH_OFFSET + 4);
    let b0: u64 = memory[4] as u64;
    let b1: u64 = memory[5] as u64;
    let b2: u64 = memory[6] as u64;
    let b3: u64 = memory[7] as u64;
    let len: u64 = b0 + 256 * b1 + 65536 * b2 + 16777216 * b3;
    proof {
        assert(field[0] == memory@[4] && field[1] == memory@[5] && field[2] == memory@[6] && field[3]
            == memory@[7]);
        reveal_with_fuel(le_value, 5);
        assert(field.drop_first().drop_first().drop_first().drop_first().len() == 0);
        assert(le_value(field) == len);
    }
    if len > (memory.len() - CALLDATA_OFFSET) as u64 {
        return None;
    }
    let end: usize = CALLDATA_OFFSET + len as usize;
    let mut out: Vec<u8> = Vec::new();
    let mut i: usize = CALLDATA_OFFSET;
    while i < end
        invariant
            CALLDATA_OFFSET <= i <= end <= memory@.len(),
            out@ == memory@.subrange(CALLDATA_OFFSET as int, i as int),
        decreases end - i,
    {
        out.push(memory[i]);
        i += 1;
    }
    Some(out)
}

/// What the flipper contract writes back for a slot that holds `value`: the
/// first byte becomes 1 where it was 0 and 0 where it was anything else; the
/// other bytes stay.
pub fn flip(value: &Bytes32) -> (r: Bytes32)
    ensures
        r@ == value@.update(
            0,
            if value@[0] == 0 {
                1u8
            } else {
                0u8
            },
        ),
{
    let mut result = *value;
    if result[0] == 0 {
        result[0] = 1;
    } else {
        result[0] = 0;
    }
    result
}

/// The first bytes of a little-endian number are the number in fewer bytes.
pub proof fn lemma_le_bytes_prefix(value: nat, narrow: nat, wide: nat)
    requires
        narrow <= wide,
    ensures
        le_bytes(value, wide).len() == wide,
        le_bytes(value, wide).subrange(0, narrow as int) == le_bytes(value, narrow),
    decreases wide,
{
    if wide > 0 {
        lemma_le_bytes_prefix(value / 256, 0, (wide - 1) as nat);
        if narrow > 0 {
            lemma_le_bytes_prefix(value / 256, (narrow - 1) as nat, (wide - 1) as nat);
            assert(le_bytes(value, wide).subrange(0, narrow as int) =~= le_bytes(value, narrow));
        } else {
            assert(le_bytes(value, wide).subrange(0, 0) =~= le_bytes(value, 0));
        }
    } else {
        assert(le_bytes(value, wide).subrange(0, 0) =~= le_bytes(value, 0));
    }
}

/// A number below two to the power 32 is read back from its four
/// little-endian bytes.
pub proof fn lemma_le_value_of_bytes(value: nat)
    requires
        value < 0x1_0000_0000,
    ensures
        le_value(le_bytes(value, 4)) == value,
{
    reveal_with_fuel(le_bytes, 5);
    reveal_with_fuel(le_value, 5);
    let b = le_bytes(value, 4);
    let b1 = le_bytes(value / 256, 3);
    let b2 = le_bytes(value / 256 / 256, 2);
    let b3 = le_bytes(value / 256 / 256 / 256, 1);
    assert(b.drop_first() =~= b1);
    assert(b1.drop_first() =~= b2);
    assert(b2.drop_first() =~= b3);
    assert(b3.drop_first() =~= Seq::<u8>::empty());
}

} // verus!
