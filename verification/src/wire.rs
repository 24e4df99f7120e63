//! Reading the canonical encoding back: headers, byte strings and lists.

use vstd::prelude::*;
use vstd::slice::slice_subrange;
use crate::bytes::copy_bytes;
use crate::codec::{
    be_minimal, be_value, lemma_be_minimal_first, lemma_be_minimal_len, lemma_be_minimal_value, pow256,
    rlp_header, rlp_list, rlp_string,
};

verus! {

/// The first length that the encoding cannot write: two to the power 32.
pub open spec fn length_limit() -> nat {
    0x1_0000_0000
}

/// The header that `s` begins with, as its own length and the length of
/// the payload that it announces. The first byte holds the payload's length
/// where that is at most 55; else it holds how many bytes, at most four, the
/// length takes, and they follow, big-endian, without a leading zero byte
/// and for a length above 55.
pub open spec fn header_decoded(s: Seq<u8>, short: nat) -> Option<(nat, nat)> {
    if s.len() == 0 {
        None
    } else if short <= s[0] <= short + 55 {
        Some((1, (s[0] - short) as nat))
    } else if short + 55 < s[0] <= short + 59 {
        let k = (s[0] - short - 55) as nat;
        if s.len() < 1 + k {
            None
        } else {
            let field = s.subrange(1, (1 + k) as int);
            if field[0] == 0 || be_value(field) <= 55 {
                None
            } else {
                Some((1 + k, be_value(field)))
            }
        }
    } else {
        None
    }
}

/// The item that `s` begins with: its payload, and how many bytes of `s`
/// header and payload take together.
pub open spec fn item_decoded(s: Seq<u8>, short: nat) -> Option<(Seq<u8>, nat)> {
    match header_decoded(s, short) {
        Some((h, n)) => if s.len() < h + n {
            None
        } else {
            Some((s.subrange(h as int, (h + n) as int), h + n))
        },
        None => None,
    }
}

/// The byte string that `s` begins with, and how many bytes of `s` its
/// encoding takes. A single byte below `0x80` with a header is refused.
pub open spec fn string_decoded(s: Seq<u8>) -> Option<(Seq<u8>, nat)> {
    if s.len() > 0 && s[0] < 0x80 {
        Some((s.subrange(0, 1), 1))
    } else {
        match item_decoded(s, 0x80) {
            Some((payload, used)) => if payload.len() == 1 && payload[0] < 0x80 {
                None
            } else {
                Some((payload, used))
            },
            None => None,
        }
    }
}

/// The list that `s` begins with: its encoded items, one after another,
/// and how many bytes of `s` its encoding takes.
pub open spec fn list_decoded(s: Seq<u8>) -> Option<(Seq<u8>, nat)> {
    item_decoded(s, 0xc0)
}

/// The `count` byte strings that `s` is made of, one after another, with
/// nothing after them.
pub open spec fn strings_decoded(s: Seq<u8>, count: nat) -> Option<Seq<Seq<u8>>>
    decreases count,
{
    if count == 0 {
        if s.len() == 0 {
            Some(Seq::empty())
        } else {
            None
        }
    } else {
        match string_decoded(s) {
            Some((payload, used)) => match strings_decoded(s.skip(used as int), (count - 1) as nat) {
                Some(rest) => Some(seq![payload] + rest),
                None => None,
            },
            None => None,
        }
    }
}

/// The encodings of the byte strings, one after another.
pub open spec fn strings_encoding(fields: Seq<Seq<u8>>) -> Seq<u8>
    decreases fields.len(),
{
    if fields.len() == 0 {
        Seq::empty()
    } else {
        rlp_string(fields[0]) + strings_encoding(fields.drop_first())
    }
}

/// Bytes stand for a number below 256 to the power of their count.
pub proof fn lemma_be_value_bound(x: Seq<u8>)
    ensures
        be_value(x) < pow256(x.len()),
    decreases x.len(),
{
    if x.len() > 0 {
        lemma_be_value_bound(x.drop_last());
    }
}

/// Bytes that do not start with a zero byte are the shortest form of the
/// number that they stand for, and that number is not zero.
pub proof fn lemma_be_value_minimal(x: Seq<u8>)
    requires
        x.len() > 0,
        x[0] != 0,
    ensures
        be_value(x) > 0,
        be_minimal(be_value(x)) == x,
    decreases x.len(),
{
    let head = x.drop_last();
    let value = be_value(x);
    if head.len() == 0 {
        assert(be_value(head) == 0);
        assert(value == x[0] as nat);
        assert(be_minimal(value / 256) =~= Seq::<u8>::empty());
        assert(be_minimal(value) =~= x);
    } else {
        assert(head[0] == x[0]);
        lemma_be_value_minimal(head);
        assert(value / 256 == be_value(head));
        assert(value % 256 == x.last() as nat);
        assert(be_minimal(value) =~= x);
    }
}

/// 256 to the power 4 is the first length that cannot be written.
pub proof fn lemma_length_limit()
    ensures
        pow256(1) == 256,
        pow256(2) == 65536,
        pow256(3) == 16777216,
        pow256(4) == length_limit(),
{
    reveal_with_fuel(pow256, 5);
}

/// A header that is read is the header of the length that it announces.
pub proof fn lemma_header_sound(s: Seq<u8>, short: nat)
    requires
        short == 0x80 || short == 0xc0,
        header_decoded(s, short) is Some,
    ensures
        ({
            let (h, n) = header_decoded(s, short).unwrap();
            &&& n < length_limit()
            &&& 1 <= h <= 5
            &&& h <= s.len()
            &&& s.subrange(0, h as int) == rlp_header(n, short, short + 55)
        }),
{
    let (h, n) = header_decoded(s, short).unwrap();
    if short <= s[0] <= short + 55 {
        assert(s.subrange(0, 1) =~= seq![(short + n) as u8]);
    } else {
        let k = (s[0] - short - 55) as nat;
        let field = s.subrange(1, (1 + k) as int);
        lemma_be_value_bound(field);
        lemma_be_value_minimal(field);
        lemma_length_limit();
        assert(pow256(k) <= length_limit()) by {
            reveal_with_fuel(pow256, 5);
        }
        assert(n % 0x1_0000_0000 == n);
        assert(s.subrange(0, h as int) =~= seq![(short + 55 + k) as u8] + field);
    }
}

/// The header of a length that can be written is read back before
/// whatever follows it.
pub proof fn lemma_header_complete(n: nat, short: nat, rest: Seq<u8>)
    requires
        short == 0x80 || short == 0xc0,
        n < length_limit(),
    ensures
        header_decoded(rlp_header(n, short, short + 55) + rest, short) == Some(
            (rlp_header(n, short, short + 55).len(), n),
        ),
{
    let header = rlp_header(n, short, short + 55);
    let s = header + rest;
    if n > 55 {
        let written = be_minimal(n);
        assert(n % 0x1_0000_0000 == n);
        lemma_length_limit();
        lemma_be_minimal_len(n, 4);
        lemma_be_minimal_first(n);
        lemma_be_minimal_value(n);
        let k = written.len();
        assert(header =~= seq![(short + 55 + k) as u8] + written);
        assert(s[0] == short + 55 + k);
        assert(s.subrange(1, (1 + k) as int) =~= written);
    } else {
        assert(s[0] == short + n);
    }
}

/// An item that is read is the header of its payload's length and the payload.
pub proof fn lemma_item_sound(s: Seq<u8>, short: nat)
    requires
        short == 0x80 || short == 0xc0,
        item_decoded(s, short) is Some,
    ensures
        ({
            let (payload, used) = item_decoded(s, short).unwrap();
            &&& payload.len() < length_limit()
            &&& 1 <= used <= s.len()
            &&& used <= payload.len() + 5
            &&& s.subrange(0, used as int) == rlp_header(payload.len(), short, short + 55) + payload
        }),
{
    lemma_header_sound(s, short);
    let (h, n) = header_decoded(s, short).unwrap();
    let (payload, used) = item_decoded(s, short).unwrap();
    assert(s.subrange(0, used as int) =~= s.subrange(0, h as int) + payload);
}

/// An item with a payload whose length can be written is read back before
/// whatever follows it.
pub proof fn lemma_item_complete(payload: Seq<u8>, short: nat, rest: Seq<u8>)
    requires
        short == 0x80 || short == 0xc0,
        payload.len() < length_limit(),
    ensures
        item_decoded(rlp_header(payload.len(), short, short + 55) + payload + rest, short) == Some(
            (payload, rlp_header(payload.len(), short, short + 55).len() + payload.len()),
        ),
{
    let header = rlp_header(payload.len(), short, short + 55);
    let s = header + payload + rest;
    assert(s =~= header + (payload + rest));
    lemma_header_complete(payload.len(), short, payload + rest);
    let h = header.len();
    assert(s.subrange(h as int, (h + payload.len()) as int) =~= payload);
}

/// A byte string that is read is encoded by the bytes that were read.
pub proof fn lemma_string_sound(s: Seq<u8>)
    requires
        string_decoded(s) is Some,
    ensures
        ({
            let (payload, used) = string_decoded(s).unwrap();
            &&& payload.len() < length_limit()
            &&& 1 <= used <= s.len()
            &&& s.subrange(0, used as int) == rlp_string(payload)
        }),
{
    if s.len() > 0 && s[0] < 0x80 {
    } else {
        lemma_item_sound(s, 0x80);
    }
}

/// The encoding of a byte string whose length can be written is read back
/// before whatever follows it.
pub proof fn lemma_string_complete(payload: Seq<u8>, rest: Seq<u8>)
    requires
        payload.len() < length_limit(),
    ensures
        string_decoded(rlp_string(payload) + rest) == Some((payload, rlp_string(payload).len())),
{
    let s = rlp_string(payload) + rest;
    if payload.len() == 1 && payload[0] < 0x80 {
        assert(s.subrange(0, 1) =~= payload);
    } else {
        lemma_item_complete(payload, 0x80, rest);
        let header = rlp_header(payload.len(), 0x80, 0xb7);
        assert(s[0] == header[0]);
        assert(header[0] >= 0x80);
    }
}

/// A list that is read is encoded by the bytes that were read.
pub proof fn lemma_list_sound(s: Seq<u8>)
    requires
        list_decoded(s) is Some,
    ensures
        ({
            let (payload, used) = list_decoded(s).unwrap();
            &&& payload.len() < length_limit()
            &&& 1 <= used <= s.len()
            &&& s.subrange(0, used as int) == rlp_list(payload)
        }),
{
    lemma_item_sound(s, 0xc0);
}

/// The encoding of a list whose payload's length can be written is read
/// back before whatever follows it.
pub proof fn lemma_list_complete(payload: Seq<u8>, rest: Seq<u8>)
    requires
        payload.len() < length_limit(),
    ensures
        list_decoded(rlp_list(payload) + rest) == Some((payload, rlp_list(payload).len())),
{
    lemma_item_complete(payload, 0xc0, rest);
}

/// Byte strings that are read are encoded by the bytes they were read from.
pub proof fn lemma_strings_sound(s: Seq<u8>, count: nat)
    requires
        strings_decoded(s, count) is Some,
    ensures
        strings_decoded(s, count).unwrap().len() == count,
        strings_encoding(strings_decoded(s, count).unwrap()) == s,
        forall|i: int| 0 <= i < count ==> (#[trigger] strings_decoded(s, count).unwrap()[i]).len() < length_limit(),
    decreases count,
{
    if count > 0 {
        let (payload, used) = string_decoded(s).unwrap();
        lemma_string_sound(s);
        let tail = s.skip(used as int);
        lemma_strings_sound(tail, (count - 1) as nat);
        let rest = strings_decoded(tail, (count - 1) as nat).unwrap();
        let fields = seq![payload] + rest;
        assert(fields.drop_first() =~= rest);
        assert(s =~= s.subrange(0, used as int) + tail);
        assert forall|i: int| 0 <= i < count implies (#[trigger] fields[i]).len() < length_limit() by {
            if i > 0 {
                assert(fields[i] == rest[i - 1]);
            }
        }
    } else {
        assert(s =~= Seq::<u8>::empty());
    }
}

/// The encodings of byte strings whose lengths can be written are read back.
pub proof fn lemma_strings_complete(fields: Seq<Seq<u8>>)
    requires
        forall|i: int| 0 <= i < fields.len() ==> (#[trigger] fields[i]).len() < length_limit(),
    ensures
        strings_decoded(strings_encoding(fields), fields.len()) == Some(fields),
    decreases fields.len(),
{
    if fields.len() > 0 {
        let rest = fields.drop_first();
        assert forall|i: int| 0 <= i < rest.len() implies (#[trigger] rest[i]).len() < length_limit() by {
            assert(rest[i] == fields[i + 1]);
        }
        lemma_strings_complete(rest);
        lemma_string_complete(fields[0], strings_encoding(rest));
        let s = strings_encoding(fields);
        let used = rlp_string(fields[0]).len();
        assert(s.skip(used as int) =~= strings_encoding(rest));
        assert(seq![fields[0]] + rest =~= fields);
    }
}

/// The byte strings of a list of vectors.
pub open spec fn views(fields: Seq<Vec<u8>>) -> Seq<Seq<u8>> {
    Seq::new(fields.len(), |i: int| fields[i]@)
}

/// Reads the header that `s` begins with: its own length, and the length
/// of the payload that it announces.
pub(crate) fn read_header(s: &[u8], short: u8) -> (r: Option<(usize, usize)>)
    requires
        short == 0x80 || short == 0xc0,
    ensures
        match header_decoded(s@, short as nat) {
            Some((h, n)) => r matches Some((header, payload)) && header == h && payload == n,
            None => r is None,
        },
{
    if s.len() == 0 {
        return None;
    }
    let first = s[0];
    if first < short {
        return None;
    }
    let over: u8 = first - short;
    if over <= 55 {
        return Some((1, over as usize));
    }
    if over > 59 {
        return None;
    }
    let k: usize = (over - 55) as usize;
    if s.len() < 1 + k {
        return None;
    }
    if s[1] == 0 {
        return None;
    }
    let mut value: u64 = 0;
    let mut i: usize = 0;
    proof {
        reveal_with_fuel(pow256, 5);
    }
    while i < k
        invariant
            i <= k <= 4,
            1 + k <= s@.len(),
            value == be_value(s@.subrange(1, 1 + i)),
            value < pow256(i as nat),
            pow256(i as nat) <= 0x1_0000_0000,
        decreases k - i,
    {
        proof {
            reveal_with_fuel(pow256, 5);
            assert(s@.subrange(1, 2 + i).drop_last() =~= s@.subrange(1, 1 + i));
        }
        value = value * 256 + s[1 + i] as u64;
        i += 1;
    }
    if value <= 55 {
        None
    } else {
        Some((1 + k, value as usize))
    }
}

/// Reads the item that `s` begins with: where in `s` its payload begins
/// and ends. The item ends where its payload ends.
pub(crate) fn read_item(s: &[u8], short: u8) -> (r: Option<(usize, usize)>)
    requires
        short == 0x80 || short == 0xc0,
    ensures
        match item_decoded(s@, short as nat) {
            Some((payload, used)) => r matches Some((from, to)) && from <= to <= s@.len() && to == used
                && s@.subrange(from as int, to as int) == payload,
            None => r is None,
        },
{
    match read_header(s, short) {
        Some((header, payload)) => {
            proof {
                lemma_header_sound(s@, short as nat);
            }
            if s.len() - header < payload {
                None
            } else {
                Some((header, header + payload))
            }
        },
        None => None,
    }
}

/// Reads the byte string that `s` begins with: where in `s` its bytes
/// begin and end. Its encoding ends where they end.
pub fn read_string(s: &[u8]) -> (r: Option<(usize, usize)>)
    ensures
        match string_decoded(s@) {
            Some((payload, used)) => r matches Some((from, to)) && from <= to <= s@.len() && to == used
                && s@.subrange(from as int, to as int) == payload,
            None => r is None,
        },
{
    if s.len() > 0 && s[0] < 0x80 {
        return Some((0, 1));
    }
    match read_item(s, 0x80) {
        Some((from, to)) => {
            if to - from == 1 && s[from] < 0x80 {
                None
            } else {
                Some((from, to))
            }
        },
        None => None,
    }
}

/// Reads the list that `s` begins with: where in `s` its items begin and
/// end. Its encoding ends where they end.
pub fn read_list(s: &[u8]) -> (r: Option<(usize, usize)>)
    ensures
        match list_decoded(s@) {
            Some((payload, used)) => r matches Some((from, to)) && from <= to <= s@.len() && to == used
                && s@.subrange(from as int, to as int) == payload,
            None => r is None,
        },
{
    read_item(s, 0xc0)
}

/// Reads the `count` byte strings that `s` is made of.
pub fn read_strings(s: &[u8], count: usize) -> (r: Option<Vec<Vec<u8>>>)
    ensures
        match strings_decoded(s@, count as nat) {
            Some(fields) => r matches Some(found) && views(found@) == fields,
            None => r is None,
        },
{
    let mut fields: Vec<Vec<u8>> = Vec::new();
    let mut pos: usize = 0;
    let mut i: usize = 0;
    let ghost goal = strings_decoded(s@, count as nat);
    proof {
        assert(s@.skip(0) =~= s@);
        assert(views(fields@) =~= Seq::<Seq<u8>>::empty());
        match goal {
            Some(all) => {
                assert(views(fields@) + all =~= all);
            },
            None => {},
        }
    }
    while i < count
        invariant
            i <= count,
            pos <= s@.len(),
            fields@.len() == i,
            goal == strings_decoded(s@, count as nat),
            goal == (match strings_decoded(s@.skip(pos as int), (count - i) as nat) {
                Some(rest) => Some(views(fields@) + rest),
                None => None,
            }),
        decreases count - i,
    {
        let rest = slice_subrange(s, pos, s.len());
        assert(rest@ =~= s@.skip(pos as int));
        match read_string(rest) {
            Some((from, to)) => {
                let payload = copy_bytes(slice_subrange(rest, from, to));
                proof {
                    let tail = strings_decoded(s@.skip(pos as int).skip(to as int), (count - i - 1) as nat);
                    assert(s@.skip(pos as int).skip(to as int) =~= s@.skip(pos + to));
                    match tail {
                        Some(more) => {
                            assert(views(fields@.push(payload)) + more =~= views(fields@) + (seq![payload@]
                                + more));
                        },
                        None => {},
                    }
                }
                fields.push(payload);
                pos = pos + to;
            },
            None => {
                return None;
            },
        }
        i += 1;
    }
    if pos == s.len() {
        proof {
            assert(views(fields@) + Seq::<Seq<u8>>::empty() =~= views(fields@));
        }
        Some(fields)
    } else {
        None
    }
}

} // verus!
