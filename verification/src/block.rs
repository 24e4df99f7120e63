//! Transactions, blocks, their canonical encoding and identity, and the
//! oracle that finds a block by its hash.

use vstd::prelude::*;
use crate::bytes::copy_bytes;
use crate::codec::{digest, put_list, put_string, put_uint, rlp_list, rlp_string, rlp_uint, sha3_256};
use crate::error::ExecError;
use crate::hash::H256;
use crate::uint::U256;

verus! {

/// A transaction.
#[derive(Debug, PartialEq, Eq)]
pub enum Tx {
    /// Moves `amount` from the account `source` to the account `dest`.
    Transfer { source: H256, dest: H256, amount: U256 },
    /// Stores `code` as a new contract and runs it once on `calldata`.
    Deploy { code: Vec<u8>, calldata: Vec<u8> },
    /// Runs the contract stored at `address` on `calldata`.
    Call { address: H256, calldata: Vec<u8> },
}

/// A transaction as a mathematical value.
pub enum TxView {
    Transfer { source: Seq<u8>, dest: Seq<u8>, amount: nat },
    Deploy { code: Seq<u8>, calldata: Seq<u8> },
    Call { address: Seq<u8>, calldata: Seq<u8> },
}

impl View for Tx {
    type V = TxView;

    open spec fn view(&self) -> TxView {
        match *self {
            Tx::Transfer { source, dest, amount } => TxView::Transfer {
                source: source@,
                dest: dest@,
                amount: amount@,
            },
            Tx::Deploy { code, calldata } => TxView::Deploy { code: code@, calldata: calldata@ },
            Tx::Call { address, calldata } => TxView::Call { address: address@, calldata: calldata@ },
        }
    }
}

/// A block: the hash of its parent, the root of the state after it, and its
/// transactions in order.
#[derive(Debug, PartialEq, Eq)]
pub struct Block {
    pub parent_hash: H256,
    pub state_root: H256,
    pub txns: Vec<Tx>,
}

/// A block as a mathematical value.
pub struct BlockView {
    pub parent_hash: Seq<u8>,
    pub state_root: Seq<u8>,
    pub txns: Seq<TxView>,
}

/// The transactions of a list as mathematical values.
pub open spec fn txs_view(txns: Seq<Tx>) -> Seq<TxView> {
    Seq::new(txns.len(), |i: int| txns[i]@)
}

impl View for Block {
    type V = BlockView;

    open spec fn view(&self) -> BlockView {
        BlockView {
            parent_hash: self.parent_hash@,
            state_root: self.state_root@,
            txns: txs_view(self.txns@),
        }
    }
}

/// The encoded fields of a transaction, one after another: a tag byte (0
/// for a transfer, 1 for a deployment, 2 for a call), then the fields in the
/// order in which they are declared.
pub open spec fn tx_payload(tx: TxView) -> Seq<u8> {
    match tx {
        TxView::Transfer { source, dest, amount } => rlp_string(seq![0u8]) + rlp_string(source)
            + rlp_string(dest) + rlp_uint(amount),
        TxView::Deploy { code, calldata } => rlp_string(seq![1u8]) + rlp_string(code) + rlp_string(
            calldata,
        ),
        TxView::Call { address, calldata } => rlp_string(seq![2u8]) + rlp_string(address)
            + rlp_string(calldata),
    }
}

/// The encoding of a transaction: the list of its tag and fields.
pub open spec fn tx_encoding(tx: TxView) -> Seq<u8> {
    rlp_list(tx_payload(tx))
}

/// The encodings of the transactions, one after another.
pub open spec fn txs_payload(txns: Seq<TxView>) -> Seq<u8>
    decreases txns.len(),
{
    if txns.len() == 0 {
        Seq::empty()
    } else {
        txs_payload(txns.drop_last()) + tx_encoding(txns.last())
    }
}

/// The encoding of a block: the list of the parent hash, the state root and
/// the list of the transactions.
pub open spec fn block_encoding(block: BlockView) -> Seq<u8> {
    rlp_list(
        rlp_string(block.parent_hash) + rlp_string(block.state_root) + rlp_list(
            txs_payload(block.txns),
        ),
    )
}

/// The identity of a block: the digest of its encoding.
pub open spec fn block_hash(block: BlockView) -> Seq<u8> {
    sha3_256(block_encoding(block))
}

impl Tx {
    /// The encoding of the transaction.
    pub fn encode(&self) -> (r: Vec<u8>)
        ensures
            r@ == tx_encoding(self@),
    {
        let mut payload: Vec<u8> = Vec::new();
        match self {
            Tx::Transfer { source, dest, amount } => {
                let tag: [u8; 1] = [0];
                assert(tag@ =~= seq![0u8]);
                put_string(&mut payload, tag.as_slice());
                put_string(&mut payload, source.to_vec().as_slice());
                put_string(&mut payload, dest.to_vec().as_slice());
                put_uint(&mut payload, amount);
            },
            Tx::Deploy { code, calldata } => {
                let tag: [u8; 1] = [1];
                assert(tag@ =~= seq![1u8]);
                put_string(&mut payload, tag.as_slice());
                put_string(&mut payload, code.as_slice());
                put_string(&mut payload, calldata.as_slice());
            },
            Tx::Call { address, calldata } => {
                let tag: [u8; 1] = [2];
                assert(tag@ =~= seq![2u8]);
                put_string(&mut payload, tag.as_slice());
                put_string(&mut payload, address.to_vec().as_slice());
                put_string(&mut payload, calldata.as_slice());
            },
        }
        assert(payload@ =~= tx_payload(self@));
        let mut r: Vec<u8> = Vec::new();
        put_list(&mut r, payload.as_slice());
        assert(r@ =~= tx_encoding(self@));
        r
    }
}

impl Clone for Tx {
    fn clone(&self) -> (r: Tx)
        ensures
            r@ == self@,
    {
        match self {
            Tx::Transfer { source, dest, amount } => Tx::Transfer {
                source: *source,
                dest: *dest,
                amount: *amount,
            },
            Tx::Deploy { code, calldata } => Tx::Deploy {
                code: copy_bytes(code.as_slice()),
                calldata: copy_bytes(calldata.as_slice()),
            },
            Tx::Call { address, calldata } => Tx::Call {
                address: *address,
                calldata: copy_bytes(calldata.as_slice()),
            },
        }
    }
}

/// A copy of the transactions, one by one.
pub fn copy_txs(txns: &Vec<Tx>) -> (r: Vec<Tx>)
    ensures
        txs_view(r@) == txs_view(txns@),
{
    let mut r: Vec<Tx> = Vec::with_capacity(txns.len());
    let mut i: usize = 0;
    while i < txns.len()
        invariant
            i <= txns@.len(),
            r@.len() == i,
            forall|j: int| 0 <= j < i ==> r@[j]@ == txns@[j]@,
        decreases txns@.len() - i,
    {
        r.push(txns[i].clone());
        i += 1;
    }
    assert(txs_view(r@) =~= txs_view(txns@));
    r
}

impl Block {
    /// The block with the given transactions and state root, and the zero
    /// hash as its parent.
    pub fn new(txns: Vec<Tx>, state_root: H256) -> (b: Block)
        ensures
            b.txns == txns,
            b.state_root == state_root,
            b.parent_hash@ == Seq::new(32, |i: int| 0u8),
    {
        Block { parent_hash: H256::zero(), state_root, txns }
    }

    /// The encoding of the block.
    pub fn encode(&self) -> (r: Vec<u8>)
        ensures
            r@ == block_encoding(self@),
    {
        let mut items: Vec<u8> = Vec::new();
        let mut i: usize = 0;
        assert(txs_view(self.txns@).take(0) =~= Seq::<TxView>::empty());
        while i < self.txns.len()
            invariant
                i <= self.txns@.len(),
                items@ == txs_payload(txs_view(self.txns@).take(i as int)),
            decreases self.txns@.len() - i,
        {
            let item = self.txns[i].encode();
            proof {
                let all = txs_view(self.txns@);
                assert(all.take(i + 1).drop_last() =~= all.take(i as int));
                assert(all.take(i + 1).last() == self.txns@[i as int]@);
            }
            crate::bytes::append_bytes(&mut items, item.as_slice());
            i += 1;
        }
        assert(txs_view(self.txns@).take(self.txns@.len() as int) =~= txs_view(self.txns@));
        let mut payload: Vec<u8> = Vec::new();
        put_string(&mut payload, self.parent_hash.to_vec().as_slice());
        put_string(&mut payload, self.state_root.to_vec().as_slice());
        put_list(&mut payload, items.as_slice());
        let mut r: Vec<u8> = Vec::new();
        put_list(&mut r, payload.as_slice());
        assert(r@ =~= block_encoding(self@));
        r
    }

    /// The identity of the block: the digest of its encoding.
    pub fn hash(&self) -> (h: H256)
        ensures
            h@ == block_hash(self@),
    {
        let encoded = self.encode();
        digest(encoded.as_slice())
    }
}

impl Clone for Block {
    fn clone(&self) -> (r: Block)
        ensures
            r@ == self@,
    {
        Block { parent_hash: self.parent_hash, state_root: self.state_root, txns: copy_txs(&self.txns) }
    }
}

impl Default for Block {
    fn default() -> (b: Block)
        ensures
            b@ == (BlockView {
                parent_hash: Seq::new(32, |i: int| 0u8),
                state_root: Seq::new(32, |i: int| 0u8),
                txns: Seq::empty(),
            }),
    {
        let b = Block { parent_hash: H256::zero(), state_root: H256::zero(), txns: Vec::new() };
        assert(txs_view(b.txns@) =~= Seq::<TxView>::empty());
        b
    }
}

/// The capability to find an earlier block by its hash.
pub trait BlockOracle {
    /// The blocks that the oracle knows, by hash.
    spec fn blocks(&self) -> Map<Seq<u8>, BlockView>;

    /// The block with the given hash, if the oracle knows it.
    fn get_block_by_hash(&self, hash: &H256) -> (r: Option<&Block>)
        ensures
            match r {
                Some(block) => self.blocks().contains_key(hash@) && block@ == self.blocks()[hash@],
                None => !self.blocks().contains_key(hash@),
            },
    ;
}

/// A block filed under a hash.
#[derive(Debug)]
pub struct Filed {
    pub hash: H256,
    pub block: Block,
}

/// The map that a list of filed blocks stands for, a later entry taking the
/// place of an earlier one under the same hash.
pub open spec fn filed_map(s: Seq<Filed>) -> Map<Seq<u8>, BlockView>
    decreases s.len(),
{
    if s.len() == 0 {
        Map::empty()
    } else {
        filed_map(s.drop_last()).insert(s.last().hash@, s.last().block@)
    }
}

/// The last entry under a hash is the one that the map gives; a hash under
/// which no entry is filed is not in the map.
pub proof fn lemma_filed_map_last(s: Seq<Filed>, k: Seq<u8>, from: int)
    requires
        0 <= from <= s.len(),
        forall|j: int| from <= j < s.len() ==> s[j].hash@ != k,
    ensures
        from > 0 && s[from - 1].hash@ == k ==> filed_map(s).contains_key(k) && filed_map(s)[k] == s[from
            - 1].block@,
        from == 0 ==> !filed_map(s).contains_key(k),
    decreases s.len(),
{
    if s.len() > 0 && from < s.len() {
        assert forall|j: int| from <= j < s.drop_last().len() implies s.drop_last()[j].hash@ != k by {
            assert(s.drop_last()[j] == s[j]);
        }
        lemma_filed_map_last(s.drop_last(), k, from);
        if from > 0 {
            assert(s.drop_last()[from - 1] == s[from - 1]);
        }
    }
}

/// An oracle that keeps the blocks it was given in memory.
#[derive(Debug)]
pub struct MockBlockOracle {
    blocks: Vec<Filed>,
}

impl MockBlockOracle {
    /// The oracle that knows no block.
    pub fn new() -> (o: MockBlockOracle)
        ensures
            o.blocks() == Map::<Seq<u8>, BlockView>::empty(),
    {
        MockBlockOracle { blocks: Vec::new() }
    }

    /// Files the block under its hash, and returns the hash.
    pub fn insert_block(&mut self, block: Block) -> (hash: H256)
        ensures
            hash@ == block_hash(block@),
            final(self).blocks() == old(self).blocks().insert(hash@, block@),
    {
        let hash = block.hash();
        let ghost before = self.blocks@;
        let filed = Filed { hash, block };
        self.blocks.push(filed);
        assert(self.blocks@.drop_last() =~= before);
        hash
    }
}

impl Default for MockBlockOracle {
    fn default() -> (o: MockBlockOracle)
        ensures
            o.blocks() == Map::<Seq<u8>, BlockView>::empty(),
    {
        MockBlockOracle::new()
    }
}

impl BlockOracle for MockBlockOracle {
    closed spec fn blocks(&self) -> Map<Seq<u8>, BlockView> {
        filed_map(self.blocks@)
    }

    fn get_block_by_hash(&self, hash: &H256) -> (r: Option<&Block>) {
        let mut i: usize = self.blocks.len();
        while i > 0
            invariant
                i <= self.blocks@.len(),
                forall|j: int| i <= j < self.blocks@.len() ==> self.blocks@[j].hash@ != hash@,
            decreases i,
        {
            if self.blocks[i - 1].hash.same(hash) {
                proof {
                    lemma_filed_map_last(self.blocks@, hash@, i as int);
                }
                return Some(&self.blocks[i - 1].block);
            }
            i -= 1;
        }
        proof {
            lemma_filed_map_last(self.blocks@, hash@, 0);
        }
        None
    }
}

/// The block with the hash `block_hash`, as the oracle knows it.
pub fn get_block_by_hash<O: BlockOracle>(block_hash: H256, oracle: &O) -> (r: Result<Block, ExecError>)
    ensures
        match r {
            Ok(block) => oracle.blocks().contains_key(block_hash@) && block@ == oracle.blocks()[block_hash@],
            Err(e) => e == ExecError::OracleMiss && !oracle.blocks().contains_key(block_hash@),
        },
{
    match oracle.get_block_by_hash(&block_hash) {
        Some(block) => Ok(block.clone()),
        None => Err(ExecError::OracleMiss),
    }
}

/// Whether `block` is the block that `requested` names: whether the digest
/// of its encoding is `requested`. A block fetched from outside is checked
/// with this before it is believed.
pub fn is_preimage(block: &Block, requested: &H256) -> (r: bool)
    ensures
        r == (block_hash(block@) == requested@),
{
    let hash = block.hash();
    hash.same(requested)
}

} // verus!
