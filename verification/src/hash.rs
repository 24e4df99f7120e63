//! The 32-byte identifier used for accounts, contracts, nodes and blocks.

use vstd::prelude::*;

verus! {

/// Thirty-two bytes, as contract storage keys and values are.
pub type Bytes32 = [u8; 32];

/// A 32-byte identifier. Identifiers are ordered as their bytes are, the
/// first byte counting most.
#[derive(Clone, Copy, Debug, PartialEq, Eq, PartialOrd, Ord, Hash)]
pub struct H256(pub [u8; 32]);

impl View for H256 {
    type V = Seq<u8>;

    open spec fn view(&self) -> Seq<u8> {
        self.0@
    }
}

/// The bytes of the root of the empty trie.
pub open spec fn empty_root() -> Seq<u8> {
    seq![
        0x56u8, 0xe8, 0x1f, 0x17, 0x1b, 0xcc, 0x55, 0xa6, 0xff, 0x83, 0x45, 0xe6, 0x92, 0xc0, 0xf8, 0x6e,
        0x5b, 0x48, 0xe0, 0x1b, 0x99, 0x6c, 0xad, 0xc0, 0x01, 0x62, 0x2f, 0xb5, 0xe3, 0x63, 0xb4, 0x21,
    ]
}

/// Whether `a` comes before `b` in the order of byte strings: at the first
/// place where they differ, `a` has the smaller byte.
pub open spec fn lex_less(a: Seq<u8>, b: Seq<u8>) -> bool {
    exists|i: int| 0 <= i < a.len() && i < b.len() && differ_first_at(a, b, i) && a[i] < b[i]
}

/// Whether `i` is the first place at which `a` and `b` differ.
pub open spec fn differ_first_at(a: Seq<u8>, b: Seq<u8>, i: int) -> bool {
    &&& a[i] != b[i]
    &&& forall|j: int| 0 <= j < i ==> a[j] == b[j]
}

/// The big-endian bytes of `value`, `width` bytes wide.
pub open spec fn be_bytes(value: nat, width: nat) -> Seq<u8>
    decreases width,
{
    if width == 0 {
        Seq::empty()
    } else {
        be_bytes(value / 256, (width - 1) as nat).push((value % 256) as u8)
    }
}

impl H256 {
    /// The identifier whose bytes are all zero.
    pub fn zero() -> (h: H256)
        ensures
            h@ == Seq::new(32, |i: int| 0u8),
    {
        let h = H256([0u8; 32]);
        assert(h@ =~= Seq::new(32, |i: int| 0u8));
        h
    }

    /// The identifier whose bytes are all zero.
    pub fn new() -> (h: H256)
        ensures
            h@ == Seq::new(32, |i: int| 0u8),
    {
        H256::zero()
    }

    /// The identifier that holds `value` big-endian in its last eight
    /// bytes, after twenty-four zero bytes.
    pub fn from_u64(value: u64) -> (h: H256)
        ensures
            h@ == be_bytes(value as nat, 32),
    {
        let mut bytes = [0u8; 32];
        let mut rest: u64 = value;
        let mut i: usize = 0;
        while i < 8
            invariant
                i <= 8,
                forall|j: int| 0 <= j < 32 - i ==> bytes@[j] == 0u8,
                bytes@.subrange(32 - i, 32) == be_bytes(value as nat, i as nat),
                rest as nat == upper(value as nat, i as nat),
            decreases 8 - i,
        {
            proof {
                lemma_be_bytes_grow(value as nat, i as nat);
            }
            let ghost before = bytes@;
            bytes[31 - i] = (rest % 256) as u8;
            rest = rest / 256;
            assert(bytes@.subrange(32 - (i + 1), 32) == seq![before[31 - i]].update(0, bytes@[31 - i])
                + before.subrange(32 - i, 32));
            i += 1;
        }
        proof {
            assert(upper(value as nat, 8) == 0) by {
                reveal_with_fuel(upper, 9);
            }
            lemma_be_bytes_pad(value as nat, 8, 32);
            assert(bytes@ =~= Seq::new(24, |j: int| 0u8) + bytes@.subrange(24, 32));
        }
        H256(bytes)
    }

    /// The root of the empty trie.
    pub fn empty_trie_hash() -> (h: H256)
        ensures
            h@ == empty_root(),
    {
        let h = H256([
            0x56, 0xe8, 0x1f, 0x17, 0x1b, 0xcc, 0x55, 0xa6, 0xff, 0x83, 0x45, 0xe6, 0x92, 0xc0, 0xf8, 0x6e,
            0x5b, 0x48, 0xe0, 0x1b, 0x99, 0x6c, 0xad, 0xc0, 0x01, 0x62, 0x2f, 0xb5, 0xe3, 0x63, 0xb4, 0x21,
        ]);
        assert(h@ =~= empty_root());
        h
    }

    /// Whether the two identifiers hold the same bytes.
    pub fn same(&self, other: &H256) -> (r: bool)
        ensures
            r == (self@ == other@),
    {
        let mut i: usize = 0;
        while i < 32
            invariant
                i <= 32,
                forall|j: int| 0 <= j < i ==> self@[j] == other@[j],
            decreases 32 - i,
        {
            if self.0[i] != other.0[i] {
                return false;
            }
            i += 1;
        }
        assert(self@ =~= other@);
        true
    }

    /// Whether `self` comes before `other` in the order of identifiers.
    pub fn less_than(&self, other: &H256) -> (r: bool)
        ensures
            r == lex_less(self@, other@),
    {
        let mut i: usize = 0;
        while i < 32
            invariant
                i <= 32,
                forall|j: int| 0 <= j < i ==> self@[j] == other@[j],
            decreases 32 - i,
        {
            if self.0[i] != other.0[i] {
                proof {
                    assert(differ_first_at(self@, other@, i as int));
                    if lex_less(self@, other@) {
                        let k = choose|k: int|
                            0 <= k < self@.len() && k < other@.len() && differ_first_at(self@, other@, k)
                                && self@[k] < other@[k];
                        assert(k == i);
                    }
                }
                return self.0[i] < other.0[i];
            }
            i += 1;
        }
        proof {
            if lex_less(self@, other@) {
                let k = choose|k: int|
                    0 <= k < self@.len() && k < other@.len() && differ_first_at(self@, other@, k) && self@[k]
                        < other@[k];
                assert(self@[k] == other@[k]);
            }
        }
        false
    }

    /// The bytes as a vector.
    pub fn to_vec(&self) -> (v: Vec<u8>)
        ensures
            v@ == self@,
    {
        let mut v: Vec<u8> = Vec::with_capacity(32);
        let mut i: usize = 0;
        while i < 32
            invariant
                i <= 32,
                v@ == self@.subrange(0, i as int),
            decreases 32 - i,
        {
            v.push(self.0[i]);
            i += 1;
        }
        assert(self@ == self@.subrange(0, 32));
        v
    }

    /// The identifier made of a slice of exactly 32 bytes.
    pub fn from_slice(src: &[u8]) -> (h: Option<H256>)
        ensures
            src@.len() == 32 ==> h.is_some() && h.unwrap()@ == src@,
            src@.len() != 32 ==> h.is_none(),
    {
        if src.len() != 32 {
            return None;
        }
        let mut bytes = [0u8; 32];
        let mut i: usize = 0;
        while i < 32
            invariant
                i <= 32,
                src@.len() == 32,
                forall|j: int| 0 <= j < i ==> bytes@[j] == src@[j],
            decreases 32 - i,
        {
            bytes[i] = src[i];
            i += 1;
        }
        assert(bytes@ =~= src@);
        Some(H256(bytes))
    }
}

/// The identifier with the given bytes.
pub open spec fn hash_of(bytes: Seq<u8>) -> H256 {
    choose|h: H256| h@ == bytes
}

/// An identifier is the identifier with its bytes.
pub proof fn lemma_hash_of_view(h: H256)
    ensures
        hash_of(h@) == h,
{
    let found = hash_of(h@);
    assert(found@ == h@);
    assert(found.0 =~= h.0);
}

impl From<u64> for H256 {
    fn from(value: u64) -> (h: H256) {
        let h = H256::from_u64(value);
        proof {
            lemma_hash_of_view(h);
        }
        h
    }
}

impl vstd::std_specs::convert::FromSpecImpl<u64> for H256 {
    open spec fn obeys_from_spec() -> bool {
        true
    }

    open spec fn from_spec(value: u64) -> H256 {
        hash_of(be_bytes(value as nat, 32))
    }
}

impl Default for H256 {
    fn default() -> (h: H256)
        ensures
            h@ == Seq::new(32, |i: int| 0u8),
    {
        H256::zero()
    }
}

/// `value` with its `steps` lowest bytes dropped.
pub open spec fn upper(value: nat, steps: nat) -> nat
    decreases steps,
{
    if steps == 0 {
        value
    } else {
        upper(value, (steps - 1) as nat) / 256
    }
}

/// One more byte of width puts the next byte of the value in front.
pub proof fn lemma_be_bytes_grow(value: nat, width: nat)
    ensures
        be_bytes(value, width + 1) == seq![(upper(value, width) % 256) as u8] + be_bytes(value, width),
    decreases width,
{
    if width == 0 {
        assert(be_bytes(value, 1) =~= seq![(value % 256) as u8]) by {
            assert(be_bytes(value / 256, 0) =~= Seq::<u8>::empty());
        }
        assert(be_bytes(value, 0) =~= Seq::<u8>::empty());
    } else {
        lemma_be_bytes_grow(value / 256, (width - 1) as nat);
        lemma_upper_shift(value, (width - 1) as nat);
        assert(be_bytes(value, width + 1) =~= seq![(upper(value, width) % 256) as u8] + be_bytes(
            value,
            width,
        ));
    }
}

/// Dropping one byte first and then `steps` is dropping `steps + 1`.
pub proof fn lemma_upper_shift(value: nat, steps: nat)
    ensures
        upper(value / 256, steps) == upper(value, steps + 1),
    decreases steps,
{
    if steps > 0 {
        lemma_upper_shift(value, (steps - 1) as nat);
    }
    assert(upper(value, steps + 1) == upper(value, steps) / 256);
}

/// A value that fits in `narrow` bytes is padded with zero bytes in front.
pub proof fn lemma_be_bytes_pad(value: nat, narrow: nat, wide: nat)
    requires
        narrow <= wide,
        upper(value, narrow) == 0,
    ensures
        be_bytes(value, wide) == Seq::new((wide - narrow) as nat, |j: int| 0u8) + be_bytes(value, narrow),
    decreases wide - narrow,
{
    if narrow == wide {
        assert(be_bytes(value, wide) =~= Seq::new(0, |j: int| 0u8) + be_bytes(value, narrow));
    } else {
        lemma_be_bytes_pad(value, narrow, (wide - 1) as nat);
        lemma_be_bytes_grow(value, (wide - 1) as nat);
        lemma_upper_zero(value, narrow, (wide - 1) as nat);
        assert(be_bytes(value, wide) =~= Seq::new((wide - narrow) as nat, |j: int| 0u8) + be_bytes(
            value,
            narrow,
        ));
    }
}

/// Once nothing is left of a value, nothing is left later either.
pub proof fn lemma_upper_zero(value: nat, from: nat, to: nat)
    requires
        from <= to,
        upper(value, from) == 0,
    ensures
        upper(value, to) == 0,
    decreases to - from,
{
    if from < to {
        lemma_upper_zero(value, from, (to - 1) as nat);
    }
}

} // verus!
