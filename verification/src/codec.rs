//! The canonical byte encoding of balances, byte strings and lists, and the
//! digest that names contracts and blocks.

use sha3::Digest;
use vstd::prelude::*;
use crate::bytes::append_bytes;
use crate::hash::H256;
use crate::uint::U256;

verus! {

/// The big-endian bytes of `n` without leading zero bytes; none for zero.
pub open spec fn be_minimal(n: nat) -> Seq<u8>
    decreases n,
{
    if n == 0 {
        Seq::empty()
    } else {
        be_minimal(n / 256).push((n % 256) as u8)
    }
}

/// The number that `bytes` stand for, read big-endian.
pub open spec fn be_value(bytes: Seq<u8>) -> nat
    decreases bytes.len(),
{
    if bytes.len() == 0 {
        0
    } else {
        be_value(bytes.drop_last()) * 256 + bytes.last() as nat
    }
}

/// The header of an item with a payload of `len` bytes: one byte that holds
/// the length where it is at most 55, else one byte that holds how many
/// bytes the length takes, and then the length, big-endian. The length is
/// written with 32 bits, so that of a longer payload is cut down to them.
pub open spec fn rlp_header(len: nat, short: nat, long: nat) -> Seq<u8> {
    if len <= 55 {
        seq![(short + len) as u8]
    } else {
        let written = be_minimal(len % 0x1_0000_0000);
        seq![(long + written.len()) as u8] + written
    }
}

/// The encoding of the byte string `data`: a single byte below `0x80` is its
/// own encoding, any other string follows its header.
pub open spec fn rlp_string(data: Seq<u8>) -> Seq<u8> {
    if data.len() == 1 && data[0] < 0x80 {
        data
    } else {
        rlp_header(data.len(), 0x80, 0xb7) + data
    }
}

/// The encoding of a list whose encoded items, one after another, are `payload`.
pub open spec fn rlp_list(payload: Seq<u8>) -> Seq<u8> {
    rlp_header(payload.len(), 0xc0, 0xf7) + payload
}

/// The encoding of the unsigned integer `n`.
pub open spec fn rlp_uint(n: nat) -> Seq<u8> {
    rlp_string(be_minimal(n))
}

/// The integer of at most 256 bits that `bytes` begin with the short-form
/// encoding of, if they do. An integer is refused where its bytes start
/// with a zero byte or where a single byte below `0x80` has a header;
/// bytes after the item are not looked at.
pub open spec fn rlp_uint_decoded(bytes: Seq<u8>) -> Option<nat> {
    if bytes.len() == 0 || bytes[0] >= 0xb8 {
        None
    } else if bytes[0] < 0x80 {
        if bytes[0] == 0 {
            None
        } else {
            Some(bytes[0] as nat)
        }
    } else {
        let n = bytes[0] - 0x80;
        if bytes.len() < 1 + n {
            None
        } else {
            let data = bytes.subrange(1, 1 + n);
            if n == 1 && data[0] < 0x80 {
                None
            } else if n > 0 && data[0] == 0 {
                None
            } else if n > 32 {
                None
            } else {
                Some(be_value(data))
            }
        }
    }
}

/// The SHA3-256 digest of `data`.
pub uninterp spec fn sha3_256(data: Seq<u8>) -> Seq<u8>;

/// Calls `rlp::encode` on a `bigint::U256` with the same words. The contract
/// claims that the result is the integer's shortest big-endian form, encoded
/// as a byte string.
#[verifier::external_body]
fn rlp_encode_u256(value: &U256) -> (r: Vec<u8>)
    ensures
        r@ == rlp_uint(value@),
{
    rlp::encode(&bigint::U256(value.0)).to_vec()
}

/// Calls `rlp::UntrustedRlp::as_val` for a `bigint::U256`. The contract
/// claims what the decoder does on a single byte or a short-form string. The
/// long form is left out: there the decoder adds a length that it has read
/// to an offset, unchecked.
#[verifier::external_body]
fn rlp_decode_u256(bytes: &[u8]) -> (r: Option<U256>)
    requires
        bytes@.len() > 0,
        bytes@[0] < 0xb8,
    ensures
        match rlp_uint_decoded(bytes@) {
            Some(n) => r matches Some(value) && value@ == n,
            None => r is None,
        },
{
    match rlp::UntrustedRlp::new(bytes).as_val::<bigint::U256>() {
        Ok(value) => Some(U256(value.0)),
        Err(_) => None,
    }
}

/// Calls `rlp::encode` on a byte slice. The contract claims that the result
/// is the encoding of a byte string, with the length written as `rlp`
/// writes it, in 32 bits.
#[verifier::external_body]
fn rlp_encode_bytes(data: &[u8]) -> (r: Vec<u8>)
    ensures
        r@ == rlp_string(data@),
{
    rlp::encode(&data).to_vec()
}

/// Makes an `rlp::RlpStream` for a list of one item, appends `payload` to it
/// raw as that one item, and takes the bytes out. The contract claims that
/// the result is the list header for the payload's length, and the payload.
#[verifier::external_body]
fn rlp_frame_list(payload: &[u8]) -> (r: Vec<u8>)
    ensures
        r@ == rlp_list(payload@),
{
    let mut stream = rlp::RlpStream::new_list(1);
    stream.append_raw(payload, 1);
    stream.out()
}

/// Calls `sha3::Sha3_256::digest`. The result is named `sha3_256`.
#[verifier::external_body]
fn sha3_digest(data: &[u8]) -> (h: H256)
    ensures
        h@ == sha3_256(data@),
{
    let mut bytes = [0u8; 32];
    bytes.copy_from_slice(sha3::Sha3_256::digest(data).as_slice());
    H256(bytes)
}

/// The encoding of a balance as it is stored in the trie.
pub fn encode_balance(value: &U256) -> (r: Vec<u8>)
    ensures
        r@ == rlp_uint(value@),
        r@.len() > 0,
{
    rlp_encode_u256(value)
}

/// The balance that `bytes` encode, or `None` where they encode none.
pub fn decode_balance(bytes: &[u8]) -> (r: Option<U256>)
    ensures
        match rlp_uint_decoded(bytes@) {
            Some(n) => r matches Some(value) && value@ == n,
            None => r is None,
        },
{
    if bytes.len() == 0 || bytes[0] >= 0xb8 {
        None
    } else {
        rlp_decode_u256(bytes)
    }
}

/// Appends the encoding of the byte string `data` to `buf`.
pub fn put_string(buf: &mut Vec<u8>, data: &[u8])
    ensures
        final(buf)@ == old(buf)@ + rlp_string(data@),
{
    let item = rlp_encode_bytes(data);
    append_bytes(buf, item.as_slice());
}

/// Appends the encoding of the integer `value` to `buf`.
pub fn put_uint(buf: &mut Vec<u8>, value: &U256)
    ensures
        final(buf)@ == old(buf)@ + rlp_uint(value@),
{
    let item = rlp_encode_u256(value);
    append_bytes(buf, item.as_slice());
}

/// Appends to `buf` the encoding of the list whose encoded items are `payload`.
pub fn put_list(buf: &mut Vec<u8>, payload: &[u8])
    ensures
        final(buf)@ == old(buf)@ + rlp_list(payload@),
{
    let item = rlp_frame_list(payload);
    append_bytes(buf, item.as_slice());
}

/// The SHA3-256 digest of `head` followed by `tail`.
pub fn digest_pair(head: &[u8], tail: &[u8]) -> (h: H256)
    ensures
        h@ == sha3_256(head@ + tail@),
{
    let mut data: Vec<u8> = Vec::new();
    append_bytes(&mut data, head);
    append_bytes(&mut data, tail);
    sha3_digest(data.as_slice())
}

/// The SHA3-256 digest of `data`.
pub(crate) fn digest(data: &[u8]) -> (h: H256)
    ensures
        h@ == sha3_256(data@),
{
    sha3_digest(data)
}

/// 256 to the power `k`.
pub open spec fn pow256(k: nat) -> nat
    decreases k,
{
    if k == 0 {
        1
    } else {
        256 * pow256((k - 1) as nat)
    }
}

/// The shortest big-endian form of a number stands for the number.
pub proof fn lemma_be_minimal_value(n: nat)
    ensures
        be_value(be_minimal(n)) == n,
    decreases n,
{
    if n > 0 {
        lemma_be_minimal_value(n / 256);
        let head = be_minimal(n / 256);
        assert(head.push((n % 256) as u8).drop_last() =~= head);
    }
}

/// The shortest big-endian form of a number other than zero has a first
/// byte, and that byte is not zero.
pub proof fn lemma_be_minimal_first(n: nat)
    requires
        n > 0,
    ensures
        be_minimal(n).len() > 0,
        be_minimal(n)[0] != 0,
    decreases n,
{
    if n >= 256 {
        lemma_be_minimal_first(n / 256);
    } else {
        assert(be_minimal(n / 256) =~= Seq::<u8>::empty());
    }
}

/// A number below 256 to the power `k` has at most `k` bytes.
pub proof fn lemma_be_minimal_len(n: nat, k: nat)
    requires
        n < pow256(k),
    ensures
        be_minimal(n).len() <= k,
    decreases n,
{
    if n > 0 {
        lemma_be_minimal_len(n / 256, (k - 1) as nat);
    }
}

/// Two to the power 256 is 256 to the power 32.
pub proof fn lemma_limit_is_pow256()
    ensures
        pow256(32) == crate::uint::limit(),
{
    reveal_with_fuel(pow256, 33);
}

} // verus!
