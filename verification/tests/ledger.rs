use arbitrary_state_machine::block::{Block, MockBlockOracle, Tx};
use arbitrary_state_machine::codec::{decode_balance, encode_balance};
use arbitrary_state_machine::error::ExecError;
use arbitrary_state_machine::executor::{
    create_account, create_initial_state, execute_block, execute_txs, read_balance,
};
use arbitrary_state_machine::hash::H256;
use arbitrary_state_machine::merkle::{get, insert, insert_empty, TrieError};
use arbitrary_state_machine::store::{apply_changes, Change, StateTrie, StoreError};
use arbitrary_state_machine::uint::U256;

fn account(n: u64) -> H256 {
    H256::from_u64(n)
}

fn funded() -> (StateTrie, H256) {
    let (root, change) = insert_empty(&account(1).0, &encode_balance(&U256::from_u64(100)));
    let mut store = StateTrie::new();
    apply_changes(&mut store, change).unwrap();
    (store, root)
}

fn balance(root: &H256, store: &StateTrie, who: u64) -> Option<U256> {
    read_balance(root, store, &account(who)).unwrap()
}

fn transfer(source: u64, dest: u64, amount: u64) -> Tx {
    Tx::Transfer { source: account(source), dest: account(dest), amount: U256::from_u64(amount) }
}

#[test]
fn initial_account() {
    let (store, r1) = funded();
    assert_ne!(r1, H256::empty_trie_hash());
    let stored = get(&r1, &store, &account(1).0).unwrap().unwrap();
    assert_eq!(decode_balance(&stored), Some(U256::from_u64(100)));
}

#[test]
fn initial_state_matches_initial_account() {
    let (store, r1) = funded();
    let (state, root, block) = create_initial_state();
    assert_eq!(root, r1);
    assert_eq!(block.state_root, r1);
    assert_eq!(block.parent_hash, Block::default().hash());
    assert!(block.txns.is_empty());
    assert_eq!(state.len(), store.len());
    assert_eq!(balance(&root, &state, 1), Some(U256::from_u64(100)));
}

#[test]
fn simple_transfer() {
    let (store, r1) = funded();
    let (r2, after) = execute_txs(&store, r1, vec![transfer(1, 2, 20)]).unwrap();
    assert_ne!(r2, r1);
    assert_eq!(balance(&r2, &after, 1), Some(U256::from_u64(80)));
    assert_eq!(balance(&r2, &after, 2), Some(U256::from_u64(20)));
}

#[test]
fn lazy_receiver() {
    let (store, r1) = funded();
    assert_eq!(balance(&r1, &store, 42), None);
    let (r2, after) = execute_txs(&store, r1, vec![transfer(1, 42, 50)]).unwrap();
    assert_eq!(balance(&r2, &after, 42), Some(U256::from_u64(50)));
    assert_eq!(balance(&r2, &after, 1), Some(U256::from_u64(50)));
}

#[test]
fn insufficient_balance() {
    let (store, r1) = funded();
    let before = store.hashes();
    let r = execute_txs(&store, r1, vec![transfer(1, 2, 101)]);
    assert_eq!(r.err(), Some(ExecError::TransferRejected));
    assert_eq!(store.hashes(), before);
    assert_eq!(balance(&r1, &store, 1), Some(U256::from_u64(100)));
}

#[test]
fn whole_balance_can_be_sent() {
    let (store, r1) = funded();
    let (r2, after) = execute_txs(&store, r1, vec![transfer(1, 2, 100)]).unwrap();
    assert_eq!(balance(&r2, &after, 1), Some(U256::from_u64(0)));
    assert_eq!(balance(&r2, &after, 2), Some(U256::from_u64(100)));
}

#[test]
fn absent_sender_is_rejected() {
    let (store, r1) = funded();
    let r = execute_txs(&store, r1, vec![transfer(7, 1, 1)]);
    assert_eq!(r.err(), Some(ExecError::TransferRejected));
}

#[test]
fn existing_receiver_is_credited() {
    let (store, r1) = funded();
    let (r2, mid) = execute_txs(&store, r1, vec![transfer(1, 2, 20)]).unwrap();
    let (r3, after) = execute_txs(&mid, r2, vec![transfer(1, 2, 30)]).unwrap();
    assert_eq!(balance(&r3, &after, 1), Some(U256::from_u64(50)));
    assert_eq!(balance(&r3, &after, 2), Some(U256::from_u64(50)));
}

#[test]
fn receiver_overflow_is_rejected() {
    let mut store = StateTrie::new();
    let root = create_account(H256::empty_trie_hash(), &mut store, account(1), U256::from_u64(5)).unwrap();
    let root = create_account(root, &mut store, account(2), U256([u64::MAX; 4])).unwrap();
    let r = execute_txs(&store, root, vec![transfer(1, 2, 1)]);
    assert_eq!(r.err(), Some(ExecError::TransferRejected));
}

#[test]
fn balances_are_read_before_the_block() {
    let (store, r1) = funded();
    let txs = vec![transfer(1, 2, 60), transfer(1, 3, 60)];
    let (r2, after) = execute_txs(&store, r1, txs).unwrap();
    assert_eq!(balance(&r2, &after, 2), Some(U256::from_u64(60)));
    assert_eq!(balance(&r2, &after, 3), Some(U256::from_u64(60)));
    assert_eq!(balance(&r2, &after, 1), Some(U256::from_u64(40)));
}

#[test]
fn failing_transaction_fails_the_block() {
    let (store, r1) = funded();
    let txs = vec![transfer(1, 2, 10), transfer(9, 2, 1), transfer(1, 3, 10)];
    assert_eq!(execute_txs(&store, r1, txs).err(), Some(ExecError::TransferRejected));
}

#[test]
fn empty_block_keeps_the_root() {
    let (store, r1) = funded();
    let (r2, after) = execute_txs(&store, r1, Vec::new()).unwrap();
    assert_eq!(r2, r1);
    assert_eq!(after.hashes(), store.hashes());
}

#[test]
fn execution_is_deterministic() {
    let (store, r1) = funded();
    let txs = || vec![transfer(1, 2, 20), transfer(1, 3, 5)];
    let (ra, sa) = execute_txs(&store, r1, txs()).unwrap();
    let (rb, sb) = execute_txs(&store, r1, txs()).unwrap();
    assert_eq!(ra, rb);
    let mut ha = sa.hashes();
    let mut hb = sb.hashes();
    ha.sort_by_key(|h| h.0);
    hb.sort_by_key(|h| h.0);
    assert_eq!(ha, hb);
    for h in ha.iter() {
        assert_eq!(sa.get(h), sb.get(h));
    }
}

#[test]
fn block_pipeline_stamps_the_new_root() {
    let (state, root, genesis) = create_initial_state();
    let mut oracle = MockBlockOracle::new();
    let parent = oracle.insert_block(genesis.clone());
    assert_eq!(parent, genesis.hash());
    let incoming = Block { parent_hash: parent, state_root: H256::zero(), txns: vec![transfer(1, 2, 20)] };
    let (done, after) = execute_block(&state, incoming.clone(), &oracle).unwrap();
    assert_eq!(done.parent_hash, parent);
    assert_eq!(done.txns, incoming.txns);
    assert_ne!(done.state_root, root);
    assert_eq!(balance(&done.state_root, &after, 1), Some(U256::from_u64(80)));
    assert_eq!(balance(&done.state_root, &after, 2), Some(U256::from_u64(20)));
    let (direct, _) = execute_txs(&state, root, vec![transfer(1, 2, 20)]).unwrap();
    assert_eq!(done.state_root, direct);
}

#[test]
fn unknown_parent_is_an_oracle_miss() {
    let (state, _, _) = create_initial_state();
    let oracle = MockBlockOracle::new();
    let incoming = Block { parent_hash: account(5), state_root: H256::zero(), txns: Vec::new() };
    assert_eq!(execute_block(&state, incoming, &oracle).err(), Some(ExecError::OracleMiss));
}

#[test]
fn dangling_root_is_an_invariant_violation() {
    let (store, _) = funded();
    let r = execute_txs(&store, account(99), vec![transfer(1, 2, 1)]);
    assert_eq!(r.err(), Some(ExecError::InvariantViolation));
}

#[test]
fn undecodable_balance_is_an_invariant_violation() {
    let mut store = StateTrie::new();
    let (root, change) = insert(&H256::empty_trie_hash(), &store, &account(1).0, &[0xc0]).unwrap();
    apply_changes(&mut store, change).unwrap();
    let r = execute_txs(&store, root, vec![transfer(1, 2, 1)]);
    assert_eq!(r.err(), Some(ExecError::InvariantViolation));
}

fn key(n: u64) -> Vec<u8> {
    account(n).0.to_vec()
}

fn put(root: H256, store: &mut StateTrie, k: &[u8], v: &[u8]) -> H256 {
    let (new_root, change) = insert(&root, store, k, v).unwrap();
    apply_changes(store, change).unwrap();
    new_root
}

fn pairs() -> Vec<(Vec<u8>, Vec<u8>)> {
    let mut pairs = Vec::new();
    for n in 0..40u64 {
        pairs.push((key(n * 0x0101_0101_0101), vec![1 + n as u8; 1 + (n as usize % 40)]));
    }
    pairs.push((Vec::new(), vec![1]));
    pairs.push((vec![0x12], vec![2; 100]));
    pairs.push((vec![0x12, 0x34], vec![3]));
    pairs.push((vec![0x12, 0x35], vec![4]));
    pairs.push((vec![0xab; 64], vec![5; 32]));
    pairs.push((vec![0xab; 63], vec![6; 32]));
    pairs
}

#[test]
fn inserted_value_is_read_back() {
    let mut store = StateTrie::new();
    let mut root = H256::empty_trie_hash();
    for (k, v) in pairs() {
        root = put(root, &mut store, &k, &v);
        assert_eq!(get(&root, &store, &k).unwrap(), Some(v));
    }
    for (k, v) in pairs() {
        assert_eq!(get(&root, &store, &k).unwrap(), Some(v));
    }
    for (k, _) in pairs() {
        root = put(root, &mut store, &k, b"replaced");
        assert_eq!(get(&root, &store, &k).unwrap(), Some(b"replaced".to_vec()));
    }
    assert_eq!(get(&root, &store, &key(12345)).unwrap(), None);
}

#[test]
fn same_insert_twice_changes_nothing() {
    let mut store = StateTrie::new();
    let mut root = H256::empty_trie_hash();
    for (k, v) in pairs() {
        root = put(root, &mut store, &k, &v);
        let (again, change) = insert(&root, &store, &k, &v).unwrap();
        assert_eq!(again, root);
        assert!(change.is_empty());
        assert_eq!(change.adds_len(), 0);
        assert_eq!(change.removes_len(), 0);
    }
    let (k, v) = pairs().swap_remove(3);
    let (again, change) = insert(&root, &store, &k, &v).unwrap();
    assert_eq!(again, root);
    assert!(change.is_empty());
}

#[test]
fn different_maps_have_different_roots() {
    let mut roots = Vec::new();
    let mut store = StateTrie::new();
    let mut root = H256::empty_trie_hash();
    roots.push(root);
    for (k, v) in pairs() {
        root = put(root, &mut store, &k, &v);
        assert!(!roots.contains(&root));
        roots.push(root);
    }
    let mut other = StateTrie::new();
    let a = put(H256::empty_trie_hash(), &mut other, &key(1), &[1]);
    let b = put(H256::empty_trie_hash(), &mut other, &key(1), &[2]);
    let c = put(H256::empty_trie_hash(), &mut other, &key(2), &[1]);
    assert!(a != b && a != c && b != c);
}

#[test]
fn root_does_not_depend_on_the_order_of_inserts() {
    let mut forward = StateTrie::new();
    let mut root_forward = H256::empty_trie_hash();
    for (k, v) in pairs() {
        root_forward = put(root_forward, &mut forward, &k, &v);
    }
    let mut backward = StateTrie::new();
    let mut root_backward = H256::empty_trie_hash();
    for (k, v) in pairs().into_iter().rev() {
        root_backward = put(root_backward, &mut backward, &k, &v);
    }
    assert_eq!(root_forward, root_backward);
    assert_eq!(forward.len(), backward.len());
}

#[test]
fn change_set_keeps_the_new_trie_whole() {
    let mut store = StateTrie::new();
    let mut root = H256::empty_trie_hash();
    let mut done: Vec<(Vec<u8>, Vec<u8>)> = Vec::new();
    for (k, v) in pairs() {
        let (new_root, change) = insert(&root, &store, &k, &v).unwrap();
        assert!(!change.removes_node(&new_root));
        assert!(change.adds_node(&new_root) || store.contains(&new_root));
        let removed: Vec<H256> = store.hashes().into_iter().filter(|h| change.removes_node(h)).collect();
        assert_eq!(removed.len(), change.removes_len());
        apply_changes(&mut store, change).unwrap();
        for h in removed.iter() {
            assert!(!store.contains(h));
        }
        assert!(store.contains(&new_root));
        root = new_root;
        done.push((k, v));
        for (k, v) in done.iter() {
            assert_eq!(get(&root, &store, k).unwrap().as_ref(), Some(v));
        }
    }
}

#[test]
fn insert_under_the_empty_root_is_insert_empty() {
    let (store, _) = funded();
    let (root_a, change_a) = insert_empty(&key(7), &[7]);
    let (root_b, change_b) = insert(&H256::empty_trie_hash(), &StateTrie::new(), &key(7), &[7]).unwrap();
    let (root_c, change_c) = insert(&H256::empty_trie_hash(), &store, &key(7), &[7]).unwrap();
    assert_eq!(root_a, root_b);
    assert_eq!(root_a, root_c);
    for change in [&change_a, &change_b, &change_c] {
        assert_eq!(change.adds_len(), 1);
        assert_eq!(change.removes_len(), 0);
        assert!(change.adds_node(&root_a));
        assert!(!change.is_empty());
    }
}

#[test]
fn lookup_under_the_empty_root_finds_nothing() {
    let (store, _) = funded();
    assert_eq!(get(&H256::empty_trie_hash(), &store, &key(1)).unwrap(), None);
    assert_eq!(get(&H256::empty_trie_hash(), &StateTrie::new(), &[]).unwrap(), None);
}

#[test]
fn missing_node_is_named() {
    let (store, _) = funded();
    let nowhere = account(0xdead);
    assert_eq!(get(&nowhere, &store, &key(1)), Err(TrieError::Require(nowhere)));
    assert_eq!(insert(&nowhere, &store, &key(1), &[1]).err(), Some(TrieError::Require(nowhere)));
}

#[test]
fn store_holds_what_was_applied() {
    let mut store = StateTrie::new();
    assert_eq!(store.len(), 0);
    assert!(store.hashes().is_empty());
    assert_eq!(apply_changes(&mut store, Change::new()), Ok(()));
    assert!(Change::new().is_empty());
    let (root, change) = insert_empty(&key(1), &[1; 40]);
    apply_changes(&mut store, change).unwrap();
    assert_eq!(store.len(), 1);
    assert!(store.contains(&root));
    assert_eq!(store.hashes(), vec![root]);
    assert!(store.get(&root).is_some());
    assert_eq!(store.get(&account(5)), None);
    assert!(!store.contains(&account(5)));
    let copy = store.clone();
    assert_eq!(copy.hashes(), store.hashes());
    assert_eq!(copy.get(&root), store.get(&root));

    // Adding what is there already changes nothing.
    let (_, again) = insert_empty(&key(1), &[1; 40]);
    assert_eq!(apply_changes(&mut store, again), Ok(()));
    assert_eq!(store.len(), 1);

    // A change that supersedes the root cannot be applied twice.
    let (next, change) = insert(&root, &store, &key(1), &[2; 40]).unwrap();
    assert!(change.removes_node(&root));
    let (_, same_change) = insert(&root, &store, &key(1), &[2; 40]).unwrap();
    assert_eq!(apply_changes(&mut store, change), Ok(()));
    assert!(!store.contains(&root));
    assert!(store.contains(&next));
    let before = store.hashes();
    assert_eq!(apply_changes(&mut store, same_change), Err(StoreError::Missing));
    assert_eq!(store.hashes(), before);
}

#[test]
fn create_account_sets_the_balance() {
    let mut store = StateTrie::new();
    let root = create_account(H256::empty_trie_hash(), &mut store, account(3), U256::from_u64(9)).unwrap();
    assert_eq!(balance(&root, &store, 3), Some(U256::from_u64(9)));
    let root = create_account(root, &mut store, account(3), U256::zero()).unwrap();
    assert_eq!(balance(&root, &store, 3), Some(U256::zero()));
    let before = store.hashes();
    assert_eq!(
        create_account(account(77), &mut store, account(3), U256::from_u64(1)),
        Err(ExecError::InvariantViolation)
    );
    assert_eq!(store.hashes(), before);
}

#[test]
fn transfer_to_oneself_keeps_what_the_sender_has_left() {
    let (store, r1) = funded();
    let (r2, after) = execute_txs(&store, r1, vec![transfer(1, 1, 30)]).unwrap();
    assert_eq!(balance(&r2, &after, 1), Some(U256::from_u64(70)));
}
