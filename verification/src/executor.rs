//! The executor: it applies the transactions of a block, in order, to the
//! state that the parent block left, and yields the new state root.

use vstd::prelude::*;
use crate::block::{
    block_hash, get_block_by_hash, txs_view, Block, BlockOracle, BlockView, Tx, TxView,
};
use crate::bytes::copy_bytes;
use crate::codec::{decode_balance, digest_pair, encode_balance, rlp_uint, rlp_uint_decoded, sha3_256};
use crate::contract::ContractState;
use crate::error::ExecError;
use crate::hash::{be_bytes, empty_root, H256};
use crate::keys::{code_key, contract_code_key};
use crate::merkle::{get, trie_lookup, update, update_spec};
use crate::store::StateTrie;
use crate::uint::{limit, U256};
use crate::vm::{Run, VmError, MAX_CALLDATA};

verus! {

/// A root and the nodes under it, or the error that stopped the block.
pub type Outcome = Result<(Seq<u8>, Map<Seq<u8>, Seq<u8>>), ExecError>;

/// A state as a mathematical value: the bytes of the root, and the nodes.
pub open spec fn outcome_view(r: Result<(H256, StateTrie), ExecError>) -> Outcome {
    match r {
        Ok((root, store)) => Ok((root@, store@)),
        Err(e) => Err(e),
    }
}

/// The balance of `account` in the trie with root `root`: none where the
/// account does not exist; an invariant violation where the trie lacks a
/// node or the stored value is no balance.
pub open spec fn balance_at(root: Seq<u8>, nodes: Map<Seq<u8>, Seq<u8>>, account: Seq<u8>) -> Result<
    Option<nat>,
    ExecError,
> {
    match trie_lookup(root, nodes, account) {
        Err(_) => Err(ExecError::InvariantViolation),
        Ok(None) => Ok(None),
        Ok(Some(bytes)) => match rlp_uint_decoded(bytes) {
            Some(n) => Ok(Some(n)),
            None => Err(ExecError::InvariantViolation),
        },
    }
}

/// The state after `key` is set to `value`, or an invariant violation.
pub open spec fn put_spec(root: Seq<u8>, nodes: Map<Seq<u8>, Seq<u8>>, key: Seq<u8>, value: Seq<u8>) -> Outcome {
    match update_spec(root, nodes, key, value) {
        Some(state) => Ok(state),
        None => Err(ExecError::InvariantViolation),
    }
}

/// The state after a transfer. Both balances are read under the root `r0`
/// over the nodes `nodes0`, the state before the block; the writes go to the
/// working state `root`, `nodes`. A sender without an account or with less
/// than `amount` is rejected. A receiver without an account is first given
/// one with `amount`; then the receiver's new balance is written, and last
/// the sender's.
pub open spec fn transfer_spec(
    r0: Seq<u8>,
    nodes0: Map<Seq<u8>, Seq<u8>>,
    root: Seq<u8>,
    nodes: Map<Seq<u8>, Seq<u8>>,
    source: Seq<u8>,
    dest: Seq<u8>,
    amount: nat,
) -> Outcome {
    match balance_at(r0, nodes0, source) {
        Err(e) => Err(e),
        Ok(None) => Err(ExecError::TransferRejected),
        Ok(Some(sender)) => if amount > sender {
            Err(ExecError::TransferRejected)
        } else {
            match balance_at(r0, nodes0, dest) {
                Err(e) => Err(e),
                Ok(None) => match put_spec(root, nodes, dest, rlp_uint(amount)) {
                    Err(e) => Err(e),
                    Ok((root1, nodes1)) => credit_and_debit(
                        root1,
                        nodes1,
                        source,
                        dest,
                        (sender - amount) as nat,
                        amount,
                    ),
                },
                Ok(Some(receiver)) => if receiver + amount >= limit() {
                    Err(ExecError::TransferRejected)
                } else {
                    credit_and_debit(root, nodes, source, dest, (sender - amount) as nat, receiver + amount)
                },
            }
        },
    }
}

/// The state after the receiver's balance and then the sender's are written.
pub open spec fn credit_and_debit(
    root: Seq<u8>,
    nodes: Map<Seq<u8>, Seq<u8>>,
    source: Seq<u8>,
    dest: Seq<u8>,
    sender: nat,
    receiver: nat,
) -> Outcome {
    match put_spec(root, nodes, dest, rlp_uint(receiver)) {
        Err(e) => Err(e),
        Ok((root1, nodes1)) => put_spec(root1, nodes1, source, rlp_uint(sender)),
    }
}

/// What a run of a contract can leave: a state, a failure of the contract,
/// or a failure of the storage under it.
pub open spec fn run_outcome(o: Outcome) -> bool {
    o is Ok || o == Err::<(Seq<u8>, Map<Seq<u8>, Seq<u8>>), ExecError>(ExecError::VmFailure) || o == Err::<
        (Seq<u8>, Map<Seq<u8>, Seq<u8>>),
        ExecError,
    >(ExecError::InvariantViolation)
}

/// The address of the contract that a deployment of `code` with `calldata`
/// makes.
pub open spec fn contract_address(code: Seq<u8>, calldata: Seq<u8>) -> Seq<u8> {
    sha3_256(code + calldata)
}

/// The state after a deployment, where `ran` is what the run of the
/// contract left. Empty code is no contract. The code is stored under the
/// code key of the contract's address before the contract runs. Calldata
/// longer than `MAX_CALLDATA` is not run on.
pub open spec fn deploy_spec(
    root: Seq<u8>,
    nodes: Map<Seq<u8>, Seq<u8>>,
    code: Seq<u8>,
    calldata: Seq<u8>,
    ran: Outcome,
) -> Outcome {
    if code.len() == 0 {
        Err(ExecError::VmFailure)
    } else {
        match put_spec(root, nodes, code_key(contract_address(code, calldata)), code) {
            Err(e) => Err(e),
            Ok(_) => if calldata.len() > MAX_CALLDATA {
                Err(ExecError::VmFailure)
            } else {
                ran
            },
        }
    }
}

/// The state after a call, where `ran` is what the run of the contract
/// left. A call to an address without code is refused. Calldata longer than
/// `MAX_CALLDATA` is not run on.
pub open spec fn call_spec(
    root: Seq<u8>,
    nodes: Map<Seq<u8>, Seq<u8>>,
    address: Seq<u8>,
    calldata: Seq<u8>,
    ran: Outcome,
) -> Outcome {
    match trie_lookup(root, nodes, code_key(address)) {
        Err(_) => Err(ExecError::InvariantViolation),
        Ok(None) => Err(ExecError::ContractAbsent),
        Ok(Some(_)) => if calldata.len() > MAX_CALLDATA {
            Err(ExecError::VmFailure)
        } else {
            ran
        },
    }
}

/// The state after one transaction.
pub open spec fn tx_spec(
    r0: Seq<u8>,
    nodes0: Map<Seq<u8>, Seq<u8>>,
    root: Seq<u8>,
    nodes: Map<Seq<u8>, Seq<u8>>,
    tx: TxView,
    ran: Outcome,
) -> Outcome {
    match tx {
        TxView::Transfer { source, dest, amount } => transfer_spec(r0, nodes0, root, nodes, source, dest, amount),
        TxView::Deploy { code, calldata } => deploy_spec(root, nodes, code, calldata, ran),
        TxView::Call { address, calldata } => call_spec(root, nodes, address, calldata, ran),
    }
}

/// The state after the transactions, applied in order, where `ran[i]` is
/// what the run of the contract of transaction `i` left. The first failure
/// is the failure of the block.
pub open spec fn txs_spec(
    r0: Seq<u8>,
    nodes0: Map<Seq<u8>, Seq<u8>>,
    root: Seq<u8>,
    nodes: Map<Seq<u8>, Seq<u8>>,
    txs: Seq<TxView>,
    ran: Seq<Outcome>,
) -> Outcome
    decreases txs.len(),
{
    if txs.len() == 0 {
        Ok((root, nodes))
    } else {
        match txs_spec(r0, nodes0, root, nodes, txs.drop_last(), ran) {
            Err(e) => Err(e),
            Ok((root1, nodes1)) => tx_spec(r0, nodes0, root1, nodes1, txs.last(), ran[txs.len() - 1]),
        }
    }
}

/// Whether `result` is what a block with the transactions `txs` gives on
/// the state `r0`, `nodes0`, for some runs of its contracts.
pub open spec fn block_outcome(
    r0: Seq<u8>,
    nodes0: Map<Seq<u8>, Seq<u8>>,
    txs: Seq<TxView>,
    result: Outcome,
) -> bool {
    exists|ran: Seq<Outcome>|
        ran.len() == txs.len() && (forall|i: int| 0 <= i < ran.len() ==> run_outcome(#[trigger] ran[i])) && result
            == txs_spec(r0, nodes0, r0, nodes0, txs, ran)
}

/// Whether every transaction is a transfer.
pub open spec fn only_transfers(txs: Seq<TxView>) -> bool {
    forall|i: int| 0 <= i < txs.len() ==> #[trigger] txs[i] is Transfer
}

/// The result of the transactions depends on the runs of the transactions
/// themselves only.
pub proof fn lemma_txs_spec_prefix(
    r0: Seq<u8>,
    nodes0: Map<Seq<u8>, Seq<u8>>,
    root: Seq<u8>,
    nodes: Map<Seq<u8>, Seq<u8>>,
    txs: Seq<TxView>,
    ran1: Seq<Outcome>,
    ran2: Seq<Outcome>,
)
    requires
        forall|i: int| 0 <= i < txs.len() ==> ran1[i] == ran2[i],
    ensures
        txs_spec(r0, nodes0, root, nodes, txs, ran1) == txs_spec(r0, nodes0, root, nodes, txs, ran2),
    decreases txs.len(),
{
    if txs.len() > 0 {
        lemma_txs_spec_prefix(r0, nodes0, root, nodes, txs.drop_last(), ran1, ran2);
    }
}

/// A block that has failed after `n` transactions has failed.
pub proof fn lemma_txs_spec_failed(
    r0: Seq<u8>,
    nodes0: Map<Seq<u8>, Seq<u8>>,
    root: Seq<u8>,
    nodes: Map<Seq<u8>, Seq<u8>>,
    txs: Seq<TxView>,
    ran: Seq<Outcome>,
    n: int,
)
    requires
        0 <= n <= txs.len(),
        txs_spec(r0, nodes0, root, nodes, txs.take(n), ran) is Err,
    ensures
        txs_spec(r0, nodes0, root, nodes, txs, ran) == txs_spec(r0, nodes0, root, nodes, txs.take(n), ran),
    decreases txs.len(),
{
    if n == txs.len() {
        assert(txs.take(n) =~= txs);
    } else {
        assert(txs.drop_last().take(n) =~= txs.take(n));
        lemma_txs_spec_failed(r0, nodes0, root, nodes, txs.drop_last(), ran, n);
    }
}

/// One more transaction, with what its run left, takes the block from the
/// state after the transactions before it to the state after it.
pub proof fn lemma_txs_spec_step(
    r0: Seq<u8>,
    nodes0: Map<Seq<u8>, Seq<u8>>,
    txs: Seq<TxView>,
    i: int,
    ran: Seq<Outcome>,
    o: Outcome,
    root: Seq<u8>,
    nodes: Map<Seq<u8>, Seq<u8>>,
)
    requires
        0 <= i < txs.len(),
        ran.len() == txs.len(),
        txs_spec(r0, nodes0, r0, nodes0, txs.take(i), ran) == Ok::<(Seq<u8>, Map<Seq<u8>, Seq<u8>>), ExecError>(
            (root, nodes),
        ),
    ensures
        txs_spec(r0, nodes0, r0, nodes0, txs.take(i + 1), ran.update(i, o)) == tx_spec(
            r0,
            nodes0,
            root,
            nodes,
            txs[i],
            o,
        ),
{
    lemma_txs_spec_prefix(r0, nodes0, r0, nodes0, txs.take(i), ran, ran.update(i, o));
    assert(txs.take(i + 1).drop_last() =~= txs.take(i));
    assert(txs.take(i + 1).last() == txs[i]);
}

/// What the transactions give for some runs is an outcome of the block.
pub proof fn lemma_block_outcome(r0: Seq<u8>, nodes0: Map<Seq<u8>, Seq<u8>>, txs: Seq<TxView>, ran: Seq<Outcome>)
    requires
        ran.len() == txs.len(),
        forall|i: int| 0 <= i < ran.len() ==> run_outcome(#[trigger] ran[i]),
    ensures
        block_outcome(r0, nodes0, txs, txs_spec(r0, nodes0, r0, nodes0, txs, ran)),
{
}

/// Where every transaction is a transfer, the runs of contracts do not matter.
pub proof fn lemma_transfers_need_no_runs(
    r0: Seq<u8>,
    nodes0: Map<Seq<u8>, Seq<u8>>,
    root: Seq<u8>,
    nodes: Map<Seq<u8>, Seq<u8>>,
    txs: Seq<TxView>,
    ran1: Seq<Outcome>,
    ran2: Seq<Outcome>,
)
    requires
        only_transfers(txs),
    ensures
        txs_spec(r0, nodes0, root, nodes, txs, ran1) == txs_spec(r0, nodes0, root, nodes, txs, ran2),
    decreases txs.len(),
{
    if txs.len() > 0 {
        assert forall|i: int| 0 <= i < txs.drop_last().len() implies #[trigger] txs.drop_last()[i] is Transfer by {
            assert(txs.drop_last()[i] == txs[i]);
        }
        lemma_transfers_need_no_runs(r0, nodes0, root, nodes, txs.drop_last(), ran1, ran2);
        assert(txs.last() == txs[txs.len() - 1]);
    }
}

/// The nodes of a state together with no root of their own.
#[derive(Debug)]
pub struct GlobalState {
    state: StateTrie,
}

impl View for GlobalState {
    type V = Map<Seq<u8>, Seq<u8>>;

    closed spec fn view(&self) -> Map<Seq<u8>, Seq<u8>> {
        self.state@
    }
}

impl GlobalState {
    /// The state that holds the given nodes.
    pub fn new(state: StateTrie) -> (g: GlobalState)
        ensures
            g@ == state@,
    {
        GlobalState { state }
    }

    /// The nodes of the state.
    pub fn into_state(self) -> (s: StateTrie)
        ensures
            s@ == self@,
    {
        self.state
    }
}

impl Default for GlobalState {
    fn default() -> (g: GlobalState)
        ensures
            g@ == Map::<Seq<u8>, Seq<u8>>::empty(),
    {
        GlobalState { state: StateTrie::new() }
    }
}

/// The balance of `account` in the trie with root `root`.
pub fn read_balance(root: &H256, store: &StateTrie, account: &H256) -> (r: Result<Option<U256>, ExecError>)
    ensures
        match balance_at(root@, store@, account@) {
            Ok(Some(n)) => r matches Ok(Some(value)) && value@ == n,
            Ok(None) => r matches Ok(None),
            Err(e) => r matches Err(err) && err == e,
        },
{
    let key = account.to_vec();
    match get(root, store, key.as_slice()) {
        Ok(Some(bytes)) => match decode_balance(bytes.as_slice()) {
            Some(value) => Ok(Some(value)),
            None => Err(ExecError::InvariantViolation),
        },
        Ok(None) => Ok(None),
        Err(_) => Err(ExecError::InvariantViolation),
    }
}

/// Sets the balance of `account` to `bal` in the trie with root `root` and
/// applies the change to the store: the new root. Where that fails the
/// store stays as it was.
pub fn create_account(root: H256, trie_db: &mut StateTrie, account: H256, bal: U256) -> (r: Result<
    H256,
    ExecError,
>)
    ensures
        match put_spec(root@, old(trie_db)@, account@, rlp_uint(bal@)) {
            Ok((new_root, nodes)) => r matches Ok(hash) && hash@ == new_root && final(trie_db)@ == nodes,
            Err(e) => r matches Err(err) && err == e && final(trie_db)@ == old(trie_db)@,
        },
        r matches Ok(hash) ==> final(trie_db)@.contains_key(hash@),
        root@ == empty_root() && old(trie_db)@ == Map::<Seq<u8>, Seq<u8>>::empty() ==> r is Ok,
{
    let key = account.to_vec();
    let value = encode_balance(&bal);
    match update(&root, trie_db, key.as_slice(), value.as_slice()) {
        Some(hash) => Ok(hash),
        None => Err(ExecError::InvariantViolation),
    }
}

/// Writes the receiver's balance and then the sender's.
fn settle_balances(
    root: H256,
    store: StateTrie,
    source: H256,
    dest: H256,
    sender: U256,
    receiver: U256,
) -> (r: Result<(H256, StateTrie), ExecError>)
    ensures
        outcome_view(r) == credit_and_debit(root@, store@, source@, dest@, sender@, receiver@),
{
    let mut store = store;
    let root1 = match create_account(root, &mut store, dest, receiver) {
        Ok(hash) => hash,
        Err(e) => {
            return Err(e);
        },
    };
    match create_account(root1, &mut store, source, sender) {
        Ok(hash) => Ok((hash, store)),
        Err(e) => Err(e),
    }
}

/// Applies one transfer to the working state `root`, `store`, reading the
/// balances in the state before the block, `r0` over `origin`.
pub fn apply_transfer(
    origin: &StateTrie,
    r0: &H256,
    root: H256,
    store: StateTrie,
    source: H256,
    dest: H256,
    amount: U256,
) -> (r: Result<(H256, StateTrie), ExecError>)
    ensures
        outcome_view(r) == transfer_spec(r0@, origin@, root@, store@, source@, dest@, amount@),
{
    let sender_bal = match read_balance(r0, origin, &source) {
        Ok(Some(bal)) => bal,
        Ok(None) => {
            return Err(ExecError::TransferRejected);
        },
        Err(e) => {
            return Err(e);
        },
    };
    let sender_left = match sender_bal.checked_sub(&amount) {
        Some(left) => left,
        None => {
            return Err(ExecError::TransferRejected);
        },
    };
    match read_balance(r0, origin, &dest) {
        Ok(Some(bal)) => match bal.checked_add(&amount) {
            Some(receiver_bal) => settle_balances(root, store, source, dest, sender_left, receiver_bal),
            None => Err(ExecError::TransferRejected),
        },
        Ok(None) => {
            let mut store = store;
            match create_account(root, &mut store, dest, amount) {
                Ok(root1) => settle_balances(root1, store, source, dest, sender_left, amount),
                Err(e) => Err(e),
            }
        },
        Err(e) => Err(e),
    }
}

/// The state that a run of a contract left, or the error that it stands
/// for: a failure of the storage is an invariant violation, any other
/// failure a failure of the contract.
pub fn fold_run(run: Run<ContractState>) -> (r: Result<(H256, StateTrie), ExecError>)
    ensures
        run_outcome(outcome_view(r)),
        match run.result {
            Ok(()) => outcome_view(r) == Ok::<(Seq<u8>, Map<Seq<u8>, Seq<u8>>), ExecError>(
                (run.ext.root_view(), run.ext.nodes()),
            ),
            Err(VmError::Storage) => outcome_view(r) == Err::<(Seq<u8>, Map<Seq<u8>, Seq<u8>>), ExecError>(
                ExecError::InvariantViolation,
            ),
            Err(_) => outcome_view(r) == Err::<(Seq<u8>, Map<Seq<u8>, Seq<u8>>), ExecError>(
                ExecError::VmFailure,
            ),
        },
{
    match run.result {
        Ok(()) => Ok(run.ext.into_parts()),
        Err(VmError::Storage) => Err(ExecError::InvariantViolation),
        Err(_) => Err(ExecError::VmFailure),
    }
}

/// Whether `after` is `before` with more lines at its end.
pub open spec fn extends(before: Seq<Vec<u8>>, after: Seq<Vec<u8>>) -> bool {
    before.len() <= after.len() && after.subrange(0, before.len() as int) =~= before
}

/// Moves the printed lines of a run to the end of `log`.
fn keep_lines(log: &mut Vec<Vec<u8>>, printed: Vec<Vec<u8>>)
    ensures
        final(log)@ == old(log)@ + printed@,
{
    let mut printed = printed;
    log.append(&mut printed);
}

/// Deploys a contract: its code is stored under the code key of its
/// address, and it is run once on `calldata` over its storage in the
/// working state.
pub fn apply_deploy(root: H256, store: StateTrie, code: &Vec<u8>, calldata: &Vec<u8>, log: &mut Vec<Vec<u8>>) -> (r:
    Result<(H256, StateTrie), ExecError>)
    ensures
        exists|ran: Outcome| run_outcome(ran) && outcome_view(r) == deploy_spec(root@, store@, code@, calldata@, ran),
        extends(old(log)@, final(log)@),
{
    if code.len() == 0 {
        assert(run_outcome(Err::<(Seq<u8>, Map<Seq<u8>, Seq<u8>>), ExecError>(ExecError::VmFailure)));
        return Err(ExecError::VmFailure);
    }
    let address = digest_pair(code.as_slice(), calldata.as_slice());
    let key = contract_code_key(&address);
    let ghost nodes = store@;
    let mut store = store;
    let root1 = match update(&root, &mut store, key.as_slice(), code.as_slice()) {
        Some(hash) => hash,
        None => {
            assert(run_outcome(Err::<(Seq<u8>, Map<Seq<u8>, Seq<u8>>), ExecError>(ExecError::VmFailure)));
            return Err(ExecError::InvariantViolation);
        },
    };
    let adapter = ContractState::bind(address, root1, store);
    let run = crate::vm::execute(adapter, code.as_slice(), copy_bytes(calldata.as_slice()));
    let Run { ext, printed, result } = run;
    keep_lines(log, printed);
    let r = fold_run(Run { ext, printed: Vec::new(), result });
    assert(outcome_view(r) == deploy_spec(root@, nodes, code@, calldata@, outcome_view(r)));
    r
}

/// Calls the contract at `address`: its code is fetched from the working
/// state, and run on `calldata` over its storage there.
pub fn apply_call(root: H256, store: StateTrie, address: H256, calldata: &Vec<u8>, log: &mut Vec<Vec<u8>>) -> (r:
    Result<(H256, StateTrie), ExecError>)
    ensures
        exists|ran: Outcome|
            run_outcome(ran) && outcome_view(r) == call_spec(root@, store@, address@, calldata@, ran),
        extends(old(log)@, final(log)@),
{
    let key = contract_code_key(&address);
    let code = match get(&root, &store, key.as_slice()) {
        Ok(Some(code)) => code,
        Ok(None) => {
            assert(run_outcome(Err::<(Seq<u8>, Map<Seq<u8>, Seq<u8>>), ExecError>(ExecError::VmFailure)));
            return Err(ExecError::ContractAbsent);
        },
        Err(_) => {
            assert(run_outcome(Err::<(Seq<u8>, Map<Seq<u8>, Seq<u8>>), ExecError>(ExecError::VmFailure)));
            return Err(ExecError::InvariantViolation);
        },
    };
    let ghost nodes = store@;
    let adapter = ContractState::bind(address, root, store);
    let run = crate::vm::execute(adapter, code.as_slice(), copy_bytes(calldata.as_slice()));
    let Run { ext, printed, result } = run;
    keep_lines(log, printed);
    let r = fold_run(Run { ext, printed: Vec::new(), result });
    assert(outcome_view(r) == call_spec(root@, nodes, address@, calldata@, outcome_view(r)));
    r
}

/// Applies one transaction to the working state.
pub fn apply_tx(origin: &StateTrie, r0: &H256, root: H256, store: StateTrie, tx: &Tx, log: &mut Vec<Vec<u8>>) -> (r:
    Result<(H256, StateTrie), ExecError>)
    ensures
        exists|ran: Outcome| run_outcome(ran) && outcome_view(r) == tx_spec(r0@, origin@, root@, store@, tx@, ran),
        extends(old(log)@, final(log)@),
{
    match tx {
        Tx::Transfer { source, dest, amount } => {
            let r = apply_transfer(origin, r0, root, store, *source, *dest, *amount);
            let ghost idle: Outcome = Err(ExecError::VmFailure);
            assert(run_outcome(idle) && outcome_view(r) == tx_spec(r0@, origin@, root@, store@, tx@, idle));
            r
        },
        Tx::Deploy { code, calldata } => {
            let r = apply_deploy(root, store, code, calldata, log);
            proof {
                let ran = choose|ran: Outcome|
                    run_outcome(ran) && outcome_view(r) == deploy_spec(root@, store@, code@, calldata@, ran);
                assert(run_outcome(ran) && outcome_view(r) == tx_spec(r0@, origin@, root@, store@, tx@, ran));
            }
            r
        },
        Tx::Call { address, calldata } => {
            let r = apply_call(root, store, *address, calldata, log);
            proof {
                let ran = choose|ran: Outcome|
                    run_outcome(ran) && outcome_view(r) == call_spec(root@, store@, address@, calldata@, ran);
                assert(run_outcome(ran) && outcome_view(r) == tx_spec(r0@, origin@, root@, store@, tx@, ran));
            }
            r
        },
    }
}

/// Applies the transactions in order to a copy of `trie_db`, starting at
/// the root `prev_state_root`: the new root and the new store, and with
/// them what the contracts printed, also where the block failed.
pub fn execute_txs_logged(trie_db: &StateTrie, prev_state_root: H256, txs: &Vec<Tx>) -> (r: (
    Result<(H256, StateTrie), ExecError>,
    Vec<Vec<u8>>,
))
    ensures
        block_outcome(prev_state_root@, trie_db@, txs_view(txs@), outcome_view(r.0)),
{
    let mut log: Vec<Vec<u8>> = Vec::new();
    let mut curr_root = prev_state_root;
    let mut post_trie = trie_db.clone();
    let ghost all = txs_view(txs@);
    let ghost r0 = prev_state_root@;
    let ghost nodes0 = trie_db@;
    let ghost idle: Outcome = Err(ExecError::VmFailure);
    let ghost mut ran: Seq<Outcome> = Seq::new(all.len(), |i: int| idle);
    let mut i: usize = 0;
    proof {
        assert(all.take(0) =~= Seq::<TxView>::empty());
    }
    while i < txs.len()
        invariant
            i <= txs@.len(),
            all == txs_view(txs@),
            r0 == prev_state_root@,
            nodes0 == trie_db@,
            ran.len() == all.len(),
            forall|j: int| 0 <= j < ran.len() ==> run_outcome(#[trigger] ran[j]),
            txs_spec(r0, nodes0, r0, nodes0, all.take(i as int), ran) == Ok::<
                (Seq<u8>, Map<Seq<u8>, Seq<u8>>),
                ExecError,
            >((curr_root@, post_trie@)),
        decreases txs@.len() - i,
    {
        let ghost before = ran;
        let ghost root_before = curr_root@;
        let ghost nodes_before = post_trie@;
        let step = apply_tx(trie_db, &prev_state_root, curr_root, post_trie, &txs[i], &mut log);
        proof {
            let o = choose|o: Outcome|
                run_outcome(o) && outcome_view(step) == tx_spec(
                    r0,
                    nodes0,
                    root_before,
                    nodes_before,
                    txs@[i as int]@,
                    o,
                );
            ran = before.update(i as int, o);
            lemma_txs_spec_step(r0, nodes0, all, i as int, before, o, root_before, nodes_before);
        }
        match step {
            Ok((root, store)) => {
                curr_root = root;
                post_trie = store;
            },
            Err(e) => {
                proof {
                    lemma_txs_spec_failed(r0, nodes0, r0, nodes0, all, ran, i + 1);
                    lemma_block_outcome(r0, nodes0, all, ran);
                }
                return (Err(e), log);
            },
        }
        i += 1;
    }
    proof {
        assert(all.take(txs@.len() as int) =~= all);
        lemma_block_outcome(r0, nodes0, all, ran);
    }
    (Ok((curr_root, post_trie)), log)
}

/// Applies the transactions in order to a copy of `trie_db`, starting at
/// the root `prev_state_root`: the new root and the new store. The balances
/// that transfers read are those before the block. The first transaction
/// that fails fails the block, and `trie_db` is what the caller keeps.
pub fn execute_txs(trie_db: &StateTrie, prev_state_root: H256, txs: Vec<Tx>) -> (r: Result<
    (H256, StateTrie),
    ExecError,
>)
    ensures
        block_outcome(prev_state_root@, trie_db@, txs_view(txs@), outcome_view(r)),
{
    execute_txs_logged(trie_db, prev_state_root, &txs).0
}

/// The block as it is after execution: the same parent and transactions,
/// and the new state root.
pub open spec fn stamped(block: BlockView, root: Seq<u8>) -> BlockView {
    BlockView { parent_hash: block.parent_hash, state_root: root, txns: block.txns }
}

/// Executes a block: the parent is looked up by the block's parent hash,
/// the transactions are applied to `state` from the parent's state root,
/// and the new root is written into the block. The state root that the
/// block came with is not looked at.
pub fn execute_block<O: BlockOracle>(state: &StateTrie, block: Block, oracle: &O) -> (r: Result<
    (Block, StateTrie),
    ExecError,
>)
    ensures
        !oracle.blocks().contains_key(block.parent_hash@) ==> (r matches Err(e) && e == ExecError::OracleMiss),
        oracle.blocks().contains_key(block.parent_hash@) ==> exists|result: Outcome|
            block_outcome(oracle.blocks()[block.parent_hash@].state_root, state@, block@.txns, result) && (match result {
                Ok((root, nodes)) => r matches Ok((done, store)) && done@ == stamped(block@, root) && store@
                    == nodes,
                Err(e) => r matches Err(err) && err == e,
            }),
{
    let prev_block = match get_block_by_hash(block.parent_hash, oracle) {
        Ok(prev_block) => prev_block,
        Err(e) => {
            return Err(e);
        },
    };
    let prev_state_root = prev_block.state_root;
    let ran = execute_txs_logged(state, prev_state_root, &block.txns).0;
    let ghost result = outcome_view(ran);
    proof {
        assert(prev_state_root@ == oracle.blocks()[block.parent_hash@].state_root);
        assert(block_outcome(prev_state_root@, state@, block@.txns, result));
    }
    match ran {
        Ok((new_root, new_trie)) => {
            let done = Block { parent_hash: block.parent_hash, state_root: new_root, txns: block.txns };
            assert(done@ == stamped(block@, new_root@));
            Ok((done, new_trie))
        },
        Err(e) => Err(e),
    }
}

/// Executes the transactions of `block` on `pre_state`, from the state
/// root that the block names: the state after them.
pub fn execute(block: Block, pre_state: GlobalState) -> (r: Result<GlobalState, ExecError>)
    ensures
        exists|result: Outcome|
            block_outcome(block.state_root@, pre_state@, block@.txns, result) && (match result {
                Ok((root, nodes)) => r matches Ok(post) && post@ == nodes,
                Err(e) => r matches Err(err) && err == e,
            }),
{
    let ran = execute_txs_logged(&pre_state.state, block.state_root, &block.txns).0;
    proof {
        assert(block_outcome(block.state_root@, pre_state@, block@.txns, outcome_view(ran)));
    }
    match ran {
        Ok((_, post)) => Ok(GlobalState { state: post }),
        Err(e) => Err(e),
    }
}

/// The account that the first state holds.
pub open spec fn first_account() -> Seq<u8> {
    be_bytes(1, 32)
}

/// The block that the first block names as its parent: the block of no
/// transactions with the zero hash as parent and as state root.
pub open spec fn null_block() -> BlockView {
    BlockView {
        parent_hash: Seq::new(32, |i: int| 0u8),
        state_root: Seq::new(32, |i: int| 0u8),
        txns: Seq::empty(),
    }
}

/// The first state: the account with the identifier 1 holds a balance of
/// 100. Returns the node store, the state root, and the first block, which
/// names the hash of `null_block` as its parent and has no transactions.
pub fn create_initial_state() -> (r: (StateTrie, H256, Block))
    ensures
        put_spec(empty_root(), Map::empty(), first_account(), rlp_uint(100)) == Ok::<
            (Seq<u8>, Map<Seq<u8>, Seq<u8>>),
            ExecError,
        >((r.1@, r.0@)),
        r.0@.contains_key(r.1@),
        r.2@ == (BlockView { parent_hash: block_hash(null_block()), state_root: r.1@, txns: Seq::empty() }),
{
    let empty_block_hash = Block::default().hash();
    let mut state = StateTrie::new();
    let acc_1 = H256::from_u64(1);
    let root = match create_account(H256::empty_trie_hash(), &mut state, acc_1, U256::from_u64(100)) {
        Ok(root) => root,
        Err(_) => {
            assert(false);
            H256::zero()
        },
    };
    let block = Block { parent_hash: empty_block_hash, state_root: root, txns: Vec::new() };
    assert(txs_view(block.txns@) =~= Seq::<TxView>::empty());
    (state, root, block)
}

} // verus!
