//! The 256-bit unsigned integer in which balances are counted.

use vstd::prelude::*;
use crate::codec::{be_value, pow256};

verus! {

/// Two to the power 64: the weight of the second word.
pub open spec fn weight1() -> int {
    0x1_0000_0000_0000_0000int
}

/// Two to the power 128: the weight of the third word.
pub open spec fn weight2() -> int {
    0x1_0000_0000_0000_0000_0000_0000_0000_0000int
}

/// Two to the power 192: the weight of the fourth word.
pub open spec fn weight3() -> int {
    0x1_0000_0000_0000_0000_0000_0000_0000_0000_0000_0000_0000_0000int
}

/// Two to the power 256: the first number that a `U256` cannot hold.
pub open spec fn limit() -> int {
    0x1_0000_0000_0000_0000_0000_0000_0000_0000_0000_0000_0000_0000_0000_0000_0000_0000int
}

/// The number that four 64-bit words stand for, lowest word first.
pub open spec fn words_value(words: Seq<u64>) -> nat
    recommends
        words.len() == 4,
{
    (words[0] + words[1] * weight1() + words[2] * weight2() + words[3] * weight3()) as nat
}

/// A 256-bit unsigned integer, held as four 64-bit words, lowest first.
#[derive(Clone, Copy, Debug, PartialEq, Eq)]
pub struct U256(pub [u64; 4]);

impl View for U256 {
    type V = nat;

    open spec fn view(&self) -> nat {
        words_value(self.0@)
    }
}

impl U256 {
    /// Zero.
    pub fn zero() -> (r: U256)
        ensures
            r@ == 0,
    {
        U256([0u64; 4])
    }

    /// The integer `value`.
    pub fn from_u64(value: u64) -> (r: U256)
        ensures
            r@ == value,
    {
        U256([value, 0, 0, 0])
    }

    /// Whether `self` is greater than `other`.
    pub fn gt(&self, other: &U256) -> (r: bool)
        ensures
            r == (self@ > other@),
    {
        if self.0[3] != other.0[3] {
            self.0[3] > other.0[3]
        } else if self.0[2] != other.0[2] {
            self.0[2] > other.0[2]
        } else if self.0[1] != other.0[1] {
            self.0[1] > other.0[1]
        } else {
            self.0[0] > other.0[0]
        }
    }

    /// Whether the two integers are equal.
    pub fn same(&self, other: &U256) -> (r: bool)
        ensures
            r == (self@ == other@),
    {
        self.0[3] == other.0[3] && self.0[2] == other.0[2] && self.0[1] == other.0[1] && self.0[0]
            == other.0[0]
    }

    /// The sum, or `None` where it does not fit in 256 bits.
    pub fn checked_add(&self, other: &U256) -> (r: Option<U256>)
        ensures
            self@ + other@ < limit() ==> r.is_some() && r.unwrap()@ == self@ + other@,
            self@ + other@ >= limit() ==> r.is_none(),
    {
        let s0: u128 = self.0[0] as u128 + other.0[0] as u128;
        let w0: u64 = (s0 % 0x1_0000_0000_0000_0000) as u64;
        let s1: u128 = self.0[1] as u128 + other.0[1] as u128 + s0 / 0x1_0000_0000_0000_0000;
        let w1: u64 = (s1 % 0x1_0000_0000_0000_0000) as u64;
        let s2: u128 = self.0[2] as u128 + other.0[2] as u128 + s1 / 0x1_0000_0000_0000_0000;
        let w2: u64 = (s2 % 0x1_0000_0000_0000_0000) as u64;
        let s3: u128 = self.0[3] as u128 + other.0[3] as u128 + s2 / 0x1_0000_0000_0000_0000;
        let w3: u64 = (s3 % 0x1_0000_0000_0000_0000) as u64;
        if s3 / 0x1_0000_0000_0000_0000 != 0 {
            None
        } else {
            Some(U256([w0, w1, w2, w3]))
        }
    }

    /// The difference, or `None` where `other` is the greater.
    pub fn checked_sub(&self, other: &U256) -> (r: Option<U256>)
        ensures
            self@ >= other@ ==> r.is_some() && r.unwrap()@ == self@ - other@,
            self@ < other@ ==> r.is_none(),
    {
        let t0: u128 = self.0[0] as u128 + 0x1_0000_0000_0000_0000 - other.0[0] as u128;
        let w0: u64 = (t0 % 0x1_0000_0000_0000_0000) as u64;
        let b0: u128 = 1 - t0 / 0x1_0000_0000_0000_0000;
        let t1: u128 = self.0[1] as u128 + 0x1_0000_0000_0000_0000 - other.0[1] as u128 - b0;
        let w1: u64 = (t1 % 0x1_0000_0000_0000_0000) as u64;
        let b1: u128 = 1 - t1 / 0x1_0000_0000_0000_0000;
        let t2: u128 = self.0[2] as u128 + 0x1_0000_0000_0000_0000 - other.0[2] as u128 - b1;
        let w2: u64 = (t2 % 0x1_0000_0000_0000_0000) as u64;
        let b2: u128 = 1 - t2 / 0x1_0000_0000_0000_0000;
        let t3: u128 = self.0[3] as u128 + 0x1_0000_0000_0000_0000 - other.0[3] as u128 - b2;
        let w3: u64 = (t3 % 0x1_0000_0000_0000_0000) as u64;
        if t3 / 0x1_0000_0000_0000_0000 == 0 {
            None
        } else {
            Some(U256([w0, w1, w2, w3]))
        }
    }
}

impl U256 {
    /// `self` times 256 plus `byte`, or `None` where that does not fit in
    /// 256 bits: `self` with one more byte at its end.
    pub fn shift_in(&self, byte: u8) -> (r: Option<U256>)
        ensures
            self@ * 256 + byte < limit() ==> r.is_some() && r.unwrap()@ == self@ * 256 + byte,
            self@ * 256 + byte >= limit() ==> r.is_none(),
    {
        let t0: u128 = self.0[0] as u128 * 256 + byte as u128;
        let w0: u64 = (t0 % 0x1_0000_0000_0000_0000) as u64;
        let t1: u128 = self.0[1] as u128 * 256 + t0 / 0x1_0000_0000_0000_0000;
        let w1: u64 = (t1 % 0x1_0000_0000_0000_0000) as u64;
        let t2: u128 = self.0[2] as u128 * 256 + t1 / 0x1_0000_0000_0000_0000;
        let w2: u64 = (t2 % 0x1_0000_0000_0000_0000) as u64;
        let t3: u128 = self.0[3] as u128 * 256 + t2 / 0x1_0000_0000_0000_0000;
        let w3: u64 = (t3 % 0x1_0000_0000_0000_0000) as u64;
        if t3 / 0x1_0000_0000_0000_0000 != 0 {
            None
        } else {
            Some(U256([w0, w1, w2, w3]))
        }
    }

    /// The integer that at most 32 bytes stand for, read big-endian.
    pub fn from_be_bytes(bytes: &[u8]) -> (r: Option<U256>)
        ensures
            bytes@.len() <= 32 ==> r.is_some() && r.unwrap()@ == be_value(bytes@),
            bytes@.len() > 32 ==> r.is_none(),
    {
        if bytes.len() > 32 {
            return None;
        }
        let mut value = U256::zero();
        let mut i: usize = 0;
        proof {
            assert(bytes@.take(0) =~= Seq::<u8>::empty());
        }
        while i < bytes.len()
            invariant
                i <= bytes@.len() <= 32,
                value@ == be_value(bytes@.take(i as int)),
                value@ < pow256(i as nat),
            decreases bytes@.len() - i,
        {
            proof {
                assert(bytes@.take(i + 1).drop_last() =~= bytes@.take(i as int));
                lemma_pow256_below_limit((i + 1) as nat);
            }
            value = match value.shift_in(bytes[i]) {
                Some(next) => next,
                None => {
                    return None;
                },
            };
            i += 1;
        }
        proof {
            assert(bytes@.take(bytes@.len() as int) =~= bytes@);
        }
        Some(value)
    }
}

/// 256 to a power of at most 32 is at most two to the power 256.
pub proof fn lemma_pow256_below_limit(k: nat)
    requires
        k <= 32,
    ensures
        pow256(k) <= limit(),
    decreases 32 - k,
{
    if k < 32 {
        lemma_pow256_below_limit(k + 1);
    } else {
        reveal_with_fuel(pow256, 33);
    }
}

impl From<u64> for U256 {
    fn from(value: u64) -> (r: U256) {
        U256([value, 0, 0, 0])
    }
}

impl vstd::std_specs::convert::FromSpecImpl<u64> for U256 {
    open spec fn obeys_from_spec() -> bool {
        true
    }

    open spec fn from_spec(value: u64) -> U256 {
        U256([value, 0, 0, 0])
    }
}

impl Default for U256 {
    fn default() -> (r: U256)
        ensures
            r@ == 0,
    {
        U256::zero()
    }
}

} // verus!
