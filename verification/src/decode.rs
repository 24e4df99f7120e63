//! Reading transactions and blocks back from their canonical encoding.

use vstd::prelude::*;
use vstd::slice::slice_subrange;
use crate::block::{
    block_encoding, block_hash, tx_encoding, tx_payload, txs_payload, txs_view, Block, BlockView, Tx, TxView,
};
use crate::bytes::copy_bytes;
use crate::codec::{
    be_minimal, be_value, digest, sha3_256, lemma_be_minimal_first, lemma_be_minimal_len, lemma_be_minimal_value,
    lemma_limit_is_pow256, rlp_list, rlp_string, rlp_uint,
};
use crate::hash::H256;
use crate::uint::{limit, U256};
use crate::wire::{
    length_limit, lemma_be_value_minimal, lemma_list_complete, lemma_list_sound, lemma_string_complete,
    lemma_string_sound, lemma_strings_complete, lemma_strings_sound, list_decoded, read_list, read_string,
    read_strings, string_decoded, strings_decoded, strings_encoding, views,
};

verus! {

/// Whether the bytes are the shortest big-endian form of an integer of at
/// most 256 bits.
pub open spec fn uint_ok(payload: Seq<u8>) -> bool {
    payload.len() <= 32 && (payload.len() == 0 || payload[0] != 0)
}

/// The transaction whose tag and fields `body` is made of.
pub open spec fn tx_body_decoded(body: Seq<u8>) -> Option<TxView> {
    match string_decoded(body) {
        None => None,
        Some((tag, used)) => {
            let rest = body.skip(used as int);
            if tag == seq![0u8] {
                match strings_decoded(rest, 3) {
                    Some(f) => if f[0].len() == 32 && f[1].len() == 32 && uint_ok(f[2]) {
                        Some(TxView::Transfer { source: f[0], dest: f[1], amount: be_value(f[2]) })
                    } else {
                        None
                    },
                    None => None,
                }
            } else if tag == seq![1u8] {
                match strings_decoded(rest, 2) {
                    Some(f) => Some(TxView::Deploy { code: f[0], calldata: f[1] }),
                    None => None,
                }
            } else if tag == seq![2u8] {
                match strings_decoded(rest, 2) {
                    Some(f) => if f[0].len() == 32 {
                        Some(TxView::Call { address: f[0], calldata: f[1] })
                    } else {
                        None
                    },
                    None => None,
                }
            } else {
                None
            }
        },
    }
}

/// The transaction that `s` begins with, and how many bytes of `s` its
/// encoding takes.
pub open spec fn tx_decoded(s: Seq<u8>) -> Option<(TxView, nat)> {
    match list_decoded(s) {
        Some((body, used)) => match tx_body_decoded(body) {
            Some(tx) => Some((tx, used)),
            None => None,
        },
        None => None,
    }
}

/// The transactions that `s` is made of, one after another.
pub open spec fn txs_decoded(s: Seq<u8>) -> Option<Seq<TxView>>
    decreases s.len(),
{
    if s.len() == 0 {
        Some(Seq::empty())
    } else {
        match tx_decoded(s) {
            Some((tx, used)) => if used == 0 || used > s.len() {
                None
            } else {
                match txs_decoded(s.skip(used as int)) {
                    Some(rest) => Some(seq![tx] + rest),
                    None => None,
                }
            },
            None => None,
        }
    }
}

/// The block that `s` is the encoding of: a list, and nothing after it, of
/// two strings of 32 bytes and the list of the transactions.
pub open spec fn block_decoded(s: Seq<u8>) -> Option<BlockView> {
    match list_decoded(s) {
        Some((body, used)) => if used != s.len() {
            None
        } else {
            block_body_decoded(body)
        },
        None => None,
    }
}

/// Whether a transaction is one that the program can hold: its
/// identifiers have 32 bytes and its amount fits in 256 bits.
pub open spec fn tx_wf(tx: TxView) -> bool {
    match tx {
        TxView::Transfer { source, dest, amount } => source.len() == 32 && dest.len() == 32 && amount < limit(),
        TxView::Deploy { code, calldata } => true,
        TxView::Call { address, calldata } => address.len() == 32,
    }
}

/// Whether a block is one that the program can hold.
pub open spec fn block_wf(block: BlockView) -> bool {
    &&& block.parent_hash.len() == 32
    &&& block.state_root.len() == 32
    &&& forall|i: int| 0 <= i < block.txns.len() ==> tx_wf(#[trigger] block.txns[i])
}

/// The encodings of two byte strings, one after the other.
pub proof fn lemma_strings_encoding_2(f: Seq<Seq<u8>>)
    requires
        f.len() == 2,
    ensures
        strings_encoding(f) == rlp_string(f[0]) + rlp_string(f[1]),
{
    reveal_with_fuel(strings_encoding, 3);
    assert(f.drop_first()[0] == f[1]);
    assert(f.drop_first().drop_first().len() == 0);
    assert(strings_encoding(f) =~= rlp_string(f[0]) + rlp_string(f[1]));
}

/// The encodings of three byte strings, one after another.
pub proof fn lemma_strings_encoding_3(f: Seq<Seq<u8>>)
    requires
        f.len() == 3,
    ensures
        strings_encoding(f) == rlp_string(f[0]) + rlp_string(f[1]) + rlp_string(f[2]),
{
    lemma_strings_encoding_2(f.drop_first());
    assert(f.drop_first()[0] == f[1]);
    assert(f.drop_first()[1] == f[2]);
    assert(strings_encoding(f) =~= rlp_string(f[0]) + rlp_string(f[1]) + rlp_string(f[2]));
}

/// The shortest form of an integer is encoded as the integer is.
pub proof fn lemma_uint_payload(payload: Seq<u8>)
    requires
        uint_ok(payload),
    ensures
        rlp_uint(be_value(payload)) == rlp_string(payload),
        be_value(payload) < limit(),
{
    if payload.len() > 0 {
        lemma_be_value_minimal(payload);
    } else {
        assert(be_minimal(0) =~= payload);
    }
    crate::wire::lemma_be_value_bound(payload);
    crate::uint::lemma_pow256_below_limit(payload.len());
}

/// A transaction that is read from its tag and fields is encoded by them.
pub proof fn lemma_tx_body_sound(body: Seq<u8>)
    requires
        tx_body_decoded(body) is Some,
    ensures
        tx_payload(tx_body_decoded(body).unwrap()) == body,
        tx_wf(tx_body_decoded(body).unwrap()),
{
    let (tag, used) = string_decoded(body).unwrap();
    let rest = body.skip(used as int);
    lemma_string_sound(body);
    assert(body =~= body.subrange(0, used as int) + rest);
    if tag == seq![0u8] {
        let f = strings_decoded(rest, 3).unwrap();
        lemma_strings_sound(rest, 3);
        lemma_strings_encoding_3(f);
        lemma_uint_payload(f[2]);
        assert(tx_payload(tx_body_decoded(body).unwrap()) =~= rlp_string(tag) + (rlp_string(f[0]) + rlp_string(
            f[1],
        ) + rlp_string(f[2])));
    } else {
        let f = strings_decoded(rest, 2).unwrap();
        lemma_strings_sound(rest, 2);
        lemma_strings_encoding_2(f);
        assert(tx_payload(tx_body_decoded(body).unwrap()) =~= rlp_string(tag) + (rlp_string(f[0]) + rlp_string(
            f[1],
        )));
    }
}

/// The tag and fields of a transaction, where their lengths can be
/// written, are read back as the transaction.
pub proof fn lemma_tx_body_complete(tx: TxView)
    requires
        tx_wf(tx),
        tx_payload(tx).len() < length_limit(),
    ensures
        tx_body_decoded(tx_payload(tx)) == Some(tx),
{
    let body = tx_payload(tx);
    match tx {
        TxView::Transfer { source, dest, amount } => {
            let tag = seq![0u8];
            let digits = be_minimal(amount);
            let f = seq![source, dest, digits];
            lemma_strings_encoding_3(f);
            let rest = strings_encoding(f);
            assert(body =~= rlp_string(tag) + rest);
            lemma_string_complete(tag, rest);
            assert(body.skip(rlp_string(tag).len() as int) =~= rest);
            lemma_strings_complete(f);
            lemma_limit_is_pow256();
            lemma_be_minimal_len(amount, 32);
            lemma_be_minimal_value(amount);
            if amount > 0 {
                lemma_be_minimal_first(amount);
            }
        },
        TxView::Deploy { code, calldata } => {
            let tag = seq![1u8];
            let f = seq![code, calldata];
            lemma_strings_encoding_2(f);
            let rest = strings_encoding(f);
            assert(body =~= rlp_string(tag) + rest);
            lemma_string_complete(tag, rest);
            assert(body.skip(rlp_string(tag).len() as int) =~= rest);
            lemma_strings_complete(f);
        },
        TxView::Call { address, calldata } => {
            let tag = seq![2u8];
            let f = seq![address, calldata];
            lemma_strings_encoding_2(f);
            let rest = strings_encoding(f);
            assert(body =~= rlp_string(tag) + rest);
            lemma_string_complete(tag, rest);
            assert(body.skip(rlp_string(tag).len() as int) =~= rest);
            lemma_strings_complete(f);
        },
    }
}

/// A transaction that is read is encoded by the bytes that were read.
pub proof fn lemma_tx_sound(s: Seq<u8>)
    requires
        tx_decoded(s) is Some,
    ensures
        ({
            let (tx, used) = tx_decoded(s).unwrap();
            &&& 1 <= used <= s.len()
            &&& tx_wf(tx)
            &&& s.subrange(0, used as int) == tx_encoding(tx)
        }),
{
    let (body, used) = list_decoded(s).unwrap();
    lemma_list_sound(s);
    lemma_tx_body_sound(body);
}

/// The encoding of a transaction, where its length can be written, is
/// read back before whatever follows it.
pub proof fn lemma_tx_complete(tx: TxView, rest: Seq<u8>)
    requires
        tx_wf(tx),
        tx_payload(tx).len() < length_limit(),
    ensures
        tx_decoded(tx_encoding(tx) + rest) == Some((tx, tx_encoding(tx).len())),
{
    lemma_list_complete(tx_payload(tx), rest);
    lemma_tx_body_complete(tx);
}

/// The encodings of transactions begin with the encoding of the first.
pub proof fn lemma_txs_payload_first(tx: TxView, rest: Seq<TxView>)
    ensures
        txs_payload(seq![tx] + rest) == tx_encoding(tx) + txs_payload(rest),
    decreases rest.len(),
{
    let all = seq![tx] + rest;
    if rest.len() == 0 {
        assert(all.drop_last() =~= Seq::<TxView>::empty());
        assert(txs_payload(all.drop_last()) =~= Seq::<u8>::empty());
        assert(txs_payload(rest) =~= Seq::<u8>::empty());
        assert(txs_payload(all) =~= tx_encoding(tx) + txs_payload(rest));
    } else {
        assert(all.drop_last() =~= seq![tx] + rest.drop_last());
        assert(all.last() == rest.last());
        lemma_txs_payload_first(tx, rest.drop_last());
        assert(txs_payload(all) =~= tx_encoding(tx) + txs_payload(rest));
    }
}

/// Transactions that are read are encoded by the bytes they were read from.
pub proof fn lemma_txs_sound(s: Seq<u8>)
    requires
        txs_decoded(s) is Some,
    ensures
        txs_payload(txs_decoded(s).unwrap()) == s,
        forall|i: int| 0 <= i < txs_decoded(s).unwrap().len() ==> tx_wf(#[trigger] txs_decoded(s).unwrap()[i]),
    decreases s.len(),
{
    if s.len() > 0 {
        let (tx, used) = tx_decoded(s).unwrap();
        let tail = s.skip(used as int);
        let rest = txs_decoded(tail).unwrap();
        lemma_tx_sound(s);
        lemma_txs_sound(tail);
        lemma_txs_payload_first(tx, rest);
        assert(s =~= s.subrange(0, used as int) + tail);
        let all = seq![tx] + rest;
        assert forall|i: int| 0 <= i < all.len() implies tx_wf(#[trigger] all[i]) by {
            if i > 0 {
                assert(all[i] == rest[i - 1]);
            }
        }
    } else {
        assert(txs_payload(Seq::<TxView>::empty()) =~= s);
    }
}

/// The encodings of transactions, where their lengths can be written, are
/// read back as the transactions.
pub proof fn lemma_txs_complete(txs: Seq<TxView>)
    requires
        forall|i: int| 0 <= i < txs.len() ==> tx_wf(#[trigger] txs[i]),
        txs_payload(txs).len() < length_limit(),
    ensures
        txs_decoded(txs_payload(txs)) == Some(txs),
    decreases txs.len(),
{
    if txs.len() > 0 {
        let first = txs[0];
        let rest = txs.drop_first();
        assert(seq![first] + rest =~= txs);
        lemma_txs_payload_first(first, rest);
        let s = txs_payload(txs);
        let head = tx_encoding(first);
        assert(tx_payload(first).len() <= head.len());
        assert forall|i: int| 0 <= i < rest.len() implies tx_wf(#[trigger] rest[i]) by {
            assert(rest[i] == txs[i + 1]);
        }
        lemma_tx_complete(first, txs_payload(rest));
        lemma_txs_complete(rest);
        assert(s.skip(head.len() as int) =~= txs_payload(rest));
    } else {
        assert(txs_payload(txs) =~= Seq::<u8>::empty());
    }
}

/// The three items of a block's body, read one after another.
pub open spec fn block_body_decoded(body: Seq<u8>) -> Option<BlockView> {
    match string_decoded(body) {
        Some((parent, used1)) => match string_decoded(body.skip(used1 as int)) {
            Some((root, used2)) => match list_decoded(body.skip((used1 + used2) as int)) {
                Some((items, used3)) => if used1 + used2 + used3 != body.len() || parent.len() != 32
                    || root.len() != 32 {
                    None
                } else {
                    match txs_decoded(items) {
                        Some(txns) => Some(BlockView { parent_hash: parent, state_root: root, txns }),
                        None => None,
                    }
                },
                None => None,
            },
            None => None,
        },
        None => None,
    }
}

/// The items of a block's body, one after another.
pub open spec fn block_body(block: BlockView) -> Seq<u8> {
    rlp_string(block.parent_hash) + rlp_string(block.state_root) + rlp_list(txs_payload(block.txns))
}

/// A block that is read from the items of its body is encoded by them.
pub proof fn lemma_block_body_sound(body: Seq<u8>)
    requires
        block_body_decoded(body) is Some,
    ensures
        block_body(block_body_decoded(body).unwrap()) == body,
        block_wf(block_body_decoded(body).unwrap()),
{
    let (parent, used1) = string_decoded(body).unwrap();
    lemma_string_sound(body);
    let after1 = body.skip(used1 as int);
    let (root, used2) = string_decoded(after1).unwrap();
    lemma_string_sound(after1);
    let after2 = body.skip((used1 + used2) as int);
    let (items, used3) = list_decoded(after2).unwrap();
    lemma_list_sound(after2);
    lemma_txs_sound(items);
    assert(after1.skip(used2 as int) =~= after2);
    assert(after2.subrange(0, used3 as int) =~= after2);
    assert(body =~= body.subrange(0, used1 as int) + after1);
    assert(after1 =~= after1.subrange(0, used2 as int) + after2);
    assert(body =~= rlp_string(parent) + rlp_string(root) + rlp_list(items));
}

/// A block that is read from bytes is encoded by exactly those bytes.
pub proof fn lemma_block_sound(s: Seq<u8>)
    requires
        block_decoded(s) is Some,
    ensures
        block_encoding(block_decoded(s).unwrap()) == s,
        block_wf(block_decoded(s).unwrap()),
{
    let (body, used) = list_decoded(s).unwrap();
    lemma_list_sound(s);
    lemma_block_body_sound(body);
    assert(s =~= s.subrange(0, used as int));
}

/// The items of a block's body, where their lengths can be written, are
/// read back as the block.
pub proof fn lemma_block_body_complete(block: BlockView)
    requires
        block_wf(block),
        block_body(block).len() < length_limit(),
    ensures
        block_body_decoded(block_body(block)) == Some(block),
{
    let items = txs_payload(block.txns);
    let list = rlp_list(items);
    let body = block_body(block);
    let used1 = rlp_string(block.parent_hash).len();
    let used2 = rlp_string(block.state_root).len();
    assert(body =~= rlp_string(block.parent_hash) + (rlp_string(block.state_root) + list));
    lemma_string_complete(block.parent_hash, rlp_string(block.state_root) + list);
    assert(body.skip(used1 as int) =~= rlp_string(block.state_root) + list);
    lemma_string_complete(block.state_root, list);
    assert(body.skip((used1 + used2) as int) =~= list + Seq::<u8>::empty());
    lemma_list_complete(items, Seq::<u8>::empty());
    lemma_txs_complete(block.txns);
}

/// The encoding of a block, where its length can be written, is read back
/// as the block.
pub proof fn lemma_block_complete(block: BlockView)
    requires
        block_wf(block),
        block_encoding(block).len() < length_limit(),
    ensures
        block_decoded(block_encoding(block)) == Some(block),
{
    let body = block_body(block);
    let s = rlp_list(body);
    assert(s =~= rlp_list(body) + Seq::<u8>::empty());
    lemma_list_complete(body, Seq::<u8>::empty());
    lemma_block_body_complete(block);
}

/// Reads a transaction from its tag and fields.
pub fn decode_tx_body(body: &[u8]) -> (r: Option<Tx>)
    ensures
        match tx_body_decoded(body@) {
            Some(tx) => r matches Some(found) && found@ == tx,
            None => r is None,
        },
{
    let (from, to) = match read_string(body) {
        Some(range) => range,
        None => {
            return None;
        },
    };
    let ghost tag = body@.subrange(from as int, to as int);
    assert(seq![0u8].len() == 1 && seq![1u8].len() == 1 && seq![2u8].len() == 1);
    if to - from != 1 {
        return None;
    }
    let kind = body[from];
    let rest = slice_subrange(body, to, body.len());
    assert(rest@ =~= body@.skip(to as int));
    assert(tag[0] == kind);
    assert(seq![0u8][0] == 0u8 && seq![1u8][0] == 1u8 && seq![2u8][0] == 2u8);
    if kind == 0 {
        assert(tag =~= seq![0u8]);
        let fields = match read_strings(rest, 3) {
            Some(fields) => fields,
            None => {
                return None;
            },
        };
        let ghost f = views(fields@);
        proof {
            lemma_strings_sound(rest@, 3);
        }
        assert(f[0] == fields@[0]@ && f[1] == fields@[1]@ && f[2] == fields@[2]@);
        let source = match H256::from_slice(fields[0].as_slice()) {
            Some(hash) => hash,
            None => {
                return None;
            },
        };
        let dest = match H256::from_slice(fields[1].as_slice()) {
            Some(hash) => hash,
            None => {
                return None;
            },
        };
        if fields[2].len() > 0 && fields[2][0] == 0 {
            return None;
        }
        match U256::from_be_bytes(fields[2].as_slice()) {
            Some(amount) => Some(Tx::Transfer { source, dest, amount }),
            None => None,
        }
    } else if kind == 1 {
        assert(tag =~= seq![1u8]);
        let fields = match read_strings(rest, 2) {
            Some(fields) => fields,
            None => {
                return None;
            },
        };
        let ghost f = views(fields@);
        proof {
            lemma_strings_sound(rest@, 2);
        }
        assert(f[0] == fields@[0]@ && f[1] == fields@[1]@);
        Some(
            Tx::Deploy {
                code: copy_bytes(fields[0].as_slice()),
                calldata: copy_bytes(fields[1].as_slice()),
            },
        )
    } else if kind == 2 {
        assert(tag =~= seq![2u8]);
        let fields = match read_strings(rest, 2) {
            Some(fields) => fields,
            None => {
                return None;
            },
        };
        let ghost f = views(fields@);
        proof {
            lemma_strings_sound(rest@, 2);
        }
        assert(f[0] == fields@[0]@ && f[1] == fields@[1]@);
        match H256::from_slice(fields[0].as_slice()) {
            Some(address) => Some(Tx::Call { address, calldata: copy_bytes(fields[1].as_slice()) }),
            None => None,
        }
    } else {
        None
    }
}

/// Reads the transaction that `s` begins with, and where in `s` its
/// encoding ends.
pub fn decode_tx(s: &[u8]) -> (r: Option<(Tx, usize)>)
    ensures
        match tx_decoded(s@) {
            Some((tx, used)) => r matches Some((found, end)) && found@ == tx && end == used && 1 <= end
                <= s@.len(),
            None => r is None,
        },
{
    match read_list(s) {
        Some((from, to)) => {
            proof {
                lemma_list_sound(s@);
            }
            match decode_tx_body(slice_subrange(s, from, to)) {
                Some(tx) => Some((tx, to)),
                None => None,
            }
        },
        None => None,
    }
}

/// Reads the transactions that `s` is made of.
pub fn decode_txs(s: &[u8]) -> (r: Option<Vec<Tx>>)
    ensures
        match txs_decoded(s@) {
            Some(txs) => r matches Some(found) && txs_view(found@) == txs,
            None => r is None,
        },
{
    let mut txs: Vec<Tx> = Vec::new();
    let mut pos: usize = 0;
    let ghost goal = txs_decoded(s@);
    proof {
        assert(s@.skip(0) =~= s@);
        match goal {
            Some(all) => {
                assert(txs_view(txs@) + all =~= all);
            },
            None => {},
        }
    }
    while pos < s.len()
        invariant
            pos <= s@.len(),
            goal == txs_decoded(s@),
            goal == (match txs_decoded(s@.skip(pos as int)) {
                Some(rest) => Some(txs_view(txs@) + rest),
                None => None,
            }),
        decreases s@.len() - pos,
    {
        let rest = slice_subrange(s, pos, s.len());
        assert(rest@ =~= s@.skip(pos as int));
        match decode_tx(rest) {
            Some((tx, end)) => {
                proof {
                    assert(s@.skip(pos as int).skip(end as int) =~= s@.skip(pos + end));
                    match txs_decoded(s@.skip(pos + end)) {
                        Some(more) => {
                            assert(txs_view(txs@.push(tx)) + more =~= txs_view(txs@) + (seq![tx@] + more));
                        },
                        None => {},
                    }
                }
                txs.push(tx);
                pos = pos + end;
            },
            None => {
                return None;
            },
        }
    }
    proof {
        assert(s@.skip(pos as int).len() == 0);
        assert(txs_view(txs@) + Seq::<TxView>::empty() =~= txs_view(txs@));
    }
    Some(txs)
}

impl Tx {
    /// Reads a transaction from its encoding: the bytes must be the
    /// encoding and nothing more.
    pub fn decode(bytes: &[u8]) -> (r: Option<Tx>)
        ensures
            match tx_decoded(bytes@) {
                Some((tx, used)) => if used == bytes@.len() {
                    r matches Some(found) && found@ == tx
                } else {
                    r is None
                },
                None => r is None,
            },
    {
        match decode_tx(bytes) {
            Some((tx, end)) => if end == bytes.len() {
                Some(tx)
            } else {
                None
            },
            None => None,
        }
    }
}

impl Block {
    /// Reads a block from its encoding: the bytes must be the encoding and
    /// nothing more.
    pub fn decode(bytes: &[u8]) -> (r: Option<Block>)
        ensures
            match block_decoded(bytes@) {
                Some(block) => r matches Some(found) && found@ == block,
                None => r is None,
            },
    {
        let (from, to) = match read_list(bytes) {
            Some(range) => range,
            None => {
                return None;
            },
        };
        if to != bytes.len() {
            return None;
        }
        let body = slice_subrange(bytes, from, to);
        let (p_from, p_to) = match read_string(body) {
            Some(range) => range,
            None => {
                return None;
            },
        };
        let after1 = slice_subrange(body, p_to, body.len());
        assert(after1@ =~= body@.skip(p_to as int));
        let (r_from, r_to) = match read_string(after1) {
            Some(range) => range,
            None => {
                return None;
            },
        };
        let after2 = slice_subrange(after1, r_to, after1.len());
        assert(after2@ =~= body@.skip(p_to + r_to));
        let (t_from, t_to) = match read_list(after2) {
            Some(range) => range,
            None => {
                return None;
            },
        };
        if t_to != after2.len() || p_to - p_from != 32 || r_to - r_from != 32 {
            return None;
        }
        let parent_hash = match H256::from_slice(slice_subrange(body, p_from, p_to)) {
            Some(hash) => hash,
            None => {
                return None;
            },
        };
        let state_root = match H256::from_slice(slice_subrange(after1, r_from, r_to)) {
            Some(hash) => hash,
            None => {
                return None;
            },
        };
        match decode_txs(slice_subrange(after2, t_from, t_to)) {
            Some(txns) => Some(Block { parent_hash, state_root, txns }),
            None => None,
        }
    }
}

/// Reads the block that `requested` names from bytes that were fetched
/// for it: the block that the bytes encode, if their digest is `requested`.
/// A block that comes back has `requested` as its hash.
pub fn authenticate(requested: &H256, preimage: &[u8]) -> (r: Option<Block>)
    ensures
        match block_decoded(preimage@) {
            Some(block) => if sha3_256(preimage@) == requested@ {
                r matches Some(found) && found@ == block
            } else {
                r is None
            },
            None => r is None,
        },
        r matches Some(found) ==> block_hash(found@) == requested@,
{
    if !digest(preimage).same(requested) {
        return None;
    }
    proof {
        if block_decoded(preimage@) is Some {
            lemma_block_sound(preimage@);
        }
    }
    Block::decode(preimage)
}

} // verus!
