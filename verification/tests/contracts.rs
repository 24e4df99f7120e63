use arbitrary_state_machine::block::Tx;
use arbitrary_state_machine::codec::digest_pair;
use arbitrary_state_machine::contract::ContractState;
use arbitrary_state_machine::error::ExecError;
use arbitrary_state_machine::executor::{execute, execute_txs, execute_txs_logged, GlobalState};
use arbitrary_state_machine::block::Block;
use arbitrary_state_machine::hash::H256;
use arbitrary_state_machine::keys::{contract_code_key, contract_storage_key, keyhash_with_prefix};
use arbitrary_state_machine::merkle::get;
use arbitrary_state_machine::store::StateTrie;
use arbitrary_state_machine::vm::{
    execute as run_contract, place_calldata, Ext, TestExt, VmError, MAX_CALLDATA,
};

fn leb(mut n: usize) -> Vec<u8> {
    let mut out = Vec::new();
    loop {
        let byte = (n & 0x7f) as u8;
        n >>= 7;
        if n == 0 {
            out.push(byte);
            return out;
        }
        out.push(byte | 0x80);
    }
}

fn section(id: u8, content: Vec<u8>) -> Vec<u8> {
    let mut out = vec![id];
    out.extend(leb(content.len()));
    out.extend(content);
    out
}

fn name(text: &str) -> Vec<u8> {
    let mut out = leb(text.len());
    out.extend(text.as_bytes());
    out
}

fn import_func(field: &str, type_index: u8) -> Vec<u8> {
    let mut out = name("env");
    out.extend(name(field));
    out.extend([0x00, type_index]);
    out
}

/// A module that imports the host's memory and functions and exports the
/// function with the given body as `export`. Type 0 takes two `i32`, type 1
/// nothing; the imports are `get_storage` (0), `set_storage` (1), `print` (2).
fn module(export: &str, body: &[u8]) -> Vec<u8> {
    let mut out = vec![0x00, 0x61, 0x73, 0x6d, 0x01, 0x00, 0x00, 0x00];
    out.extend(section(1, vec![0x02, 0x60, 0x02, 0x7f, 0x7f, 0x00, 0x60, 0x00, 0x00]));
    let mut imports = vec![0x04];
    imports.extend(name("env"));
    imports.extend(name("memory"));
    imports.extend([0x02, 0x01, 0x10, 0x20]);
    imports.extend(import_func("get_storage", 0));
    imports.extend(import_func("set_storage", 0));
    imports.extend(import_func("print", 0));
    out.extend(section(2, imports));
    out.extend(section(3, vec![0x01, 0x01]));
    let mut exports = vec![0x01];
    exports.extend(name(export));
    exports.extend([0x00, 0x03]);
    out.extend(section(7, exports));
    let mut code = vec![0x00];
    code.extend(body);
    code.push(0x0b);
    let mut bodies = vec![0x01];
    bodies.extend(leb(code.len()));
    bodies.extend(code);
    out.extend(section(10, bodies));
    out
}

/// `i32.const` of a value below 64.
fn small(n: u8) -> [u8; 2] {
    [0x41, n]
}

/// `i32.const` of a value from 64 to 8191.
fn konst(n: u16) -> [u8; 3] {
    [0x41, (n & 0x7f) as u8 | 0x80, (n >> 7) as u8]
}

/// Reads the key from the calldata, gets its slot into `scratch`, flips the
/// first byte between 0 and 1, and sets the slot.
fn flipper_at(scratch: u16) -> Vec<u8> {
    let mut body = Vec::new();
    body.extend(small(36));
    body.extend(konst(scratch));
    body.extend([0x10, 0x00]);
    body.extend(konst(scratch));
    body.extend(konst(scratch));
    body.extend([0x2d, 0x00, 0x00, 0x45, 0x3a, 0x00, 0x00]);
    body.extend(small(36));
    body.extend(konst(scratch));
    body.extend([0x10, 0x01]);
    module("entrypoint", &body)
}

fn flipper() -> Vec<u8> {
    flipper_at(100)
}

fn one() -> [u8; 32] {
    let mut v = [0u8; 32];
    v[0] = 1;
    v
}

#[test]
fn flipper_simple() {
    let wasm = flipper();
    let ext = TestExt::new();
    let run = run_contract(ext, &wasm, vec![1u8; 32]);
    run.result.unwrap();
    let ext = run.ext;

    // Flipper supposed to set the storage at key 0x0101..0101 to 1.
    let value = ext.get(&[1u8; 32]).unwrap();
    assert_eq!(value[0], 1);

    let run = run_contract(ext, &wasm, vec![1u8; 32]);
    run.result.unwrap();
    let ext = run.ext;
    let value = ext.get(&[1u8; 32]).unwrap();
    assert_eq!(value[0], 0);
}

#[test]
fn test_ext_reads_zero_where_nothing_is_stored() {
    let mut ext = TestExt::new();
    assert_eq!(ext.get(&[9u8; 32]), Ok([0u8; 32]));
    ext.set(&[9u8; 32], &[7u8; 32]).unwrap();
    ext.set(&[8u8; 32], &[6u8; 32]).unwrap();
    ext.set(&[9u8; 32], &[5u8; 32]).unwrap();
    assert_eq!(ext.get(&[9u8; 32]), Ok([5u8; 32]));
    assert_eq!(ext.get(&[8u8; 32]), Ok([6u8; 32]));
}

#[test]
fn calldata_is_placed_behind_its_length() {
    let image = place_calldata(&[0xaa, 0xbb, 0xcc]).unwrap();
    let mut expected = vec![0u8; 32];
    expected[0] = 3;
    expected.extend([0xaa, 0xbb, 0xcc]);
    assert_eq!(image, expected);
    let long = vec![0u8; 0x1234];
    let image = place_calldata(&long).unwrap();
    assert_eq!(&image[..3], &[0x34, 0x12, 0x00]);
    assert_eq!(image.len(), 32 + 0x1234);
    assert_eq!(place_calldata(&[]).unwrap(), vec![0u8; 32]);
}

#[test]
fn calldata_is_capped() {
    assert!(place_calldata(&vec![0u8; MAX_CALLDATA]).is_some());
    assert!(place_calldata(&vec![0u8; MAX_CALLDATA + 1]).is_none());
    let run = run_contract(TestExt::new(), &flipper(), vec![0u8; MAX_CALLDATA + 1]);
    assert_eq!(run.result, Err(VmError::CalldataTooLarge));
}

#[test]
fn contract_sees_the_length_of_its_calldata() {
    // Copies the four bytes at offset 4 into the slot with the key at offset 36.
    let mut body = Vec::new();
    body.extend(konst(200));
    body.extend(small(4));
    body.extend([0x28, 0x02, 0x00, 0x36, 0x02, 0x00]);
    body.extend(small(36));
    body.extend(konst(200));
    body.extend([0x10, 0x01]);
    let wasm = module("entrypoint", &body);
    let mut calldata = vec![3u8; 32];
    calldata.extend([0u8; 268]);
    let run = run_contract(TestExt::new(), &wasm, calldata);
    run.result.unwrap();
    let value = run.ext.get(&[3u8; 32]).unwrap();
    assert_eq!(&value[..4], &[0x2c, 0x01, 0x00, 0x00]);
}

#[test]
fn garbage_is_no_module() {
    let run = run_contract(TestExt::new(), &[1, 2, 3], Vec::new());
    assert_eq!(run.result, Err(VmError::InvalidModule));
}

#[test]
fn missing_entrypoint_is_reported() {
    let wasm = module("other", &[]);
    let run = run_contract(TestExt::new(), &wasm, Vec::new());
    assert_eq!(run.result, Err(VmError::MissingEntrypoint));
}

#[test]
fn unknown_import_fails_instantiation() {
    let mut wasm = vec![0x00, 0x61, 0x73, 0x6d, 0x01, 0x00, 0x00, 0x00];
    wasm.extend(section(1, vec![0x01, 0x60, 0x00, 0x00]));
    let mut imports = vec![0x01];
    imports.extend(import_func("nothing", 0));
    wasm.extend(section(2, imports));
    let run = run_contract(TestExt::new(), &wasm, Vec::new());
    assert_eq!(run.result, Err(VmError::Instantiate));
}

#[test]
fn out_of_bounds_key_traps() {
    // get_storage with a key that ends beyond the sixteen pages.
    let mut body = Vec::new();
    body.extend([0x41, 0xf0, 0xff, 0x3f]);
    body.extend(konst(100));
    body.extend([0x10, 0x00]);
    let wasm = module("entrypoint", &body);
    let run = run_contract(TestExt::new(), &wasm, Vec::new());
    assert_eq!(run.result, Err(VmError::Trap));
}

#[test]
fn unreachable_traps() {
    let wasm = module("entrypoint", &[0x00]);
    let run = run_contract(TestExt::new(), &wasm, Vec::new());
    assert_eq!(run.result, Err(VmError::Trap));
}

#[test]
fn endless_loop_runs_out_of_fuel() {
    let wasm = module("entrypoint", &[0x03, 0x40, 0x0c, 0x00, 0x0b]);
    let run = run_contract(TestExt::new(), &wasm, Vec::new());
    assert_eq!(run.result, Err(VmError::Trap));
}

#[test]
fn printed_lines_are_kept() {
    // print(36, 5), then print(36, 2)
    let mut body = Vec::new();
    body.extend(small(36));
    body.extend(small(5));
    body.extend([0x10, 0x02]);
    body.extend(small(36));
    body.extend(small(2));
    body.extend([0x10, 0x02]);
    let wasm = module("entrypoint", &body);
    let run = run_contract(TestExt::new(), &wasm, b"hello".to_vec());
    run.result.unwrap();
    assert_eq!(run.printed, vec![b"hello".to_vec(), b"he".to_vec()]);
}

#[test]
fn print_out_of_bounds_traps() {
    let mut body = Vec::new();
    body.extend(small(36));
    body.extend([0x41, 0x80, 0x80, 0xc0, 0x00]);
    body.extend([0x10, 0x02]);
    let wasm = module("entrypoint", &body);
    let run = run_contract(TestExt::new(), &wasm, Vec::new());
    assert_eq!(run.result, Err(VmError::Trap));
    assert!(run.printed.is_empty());
}

fn slot(address: H256, root: H256, store: &StateTrie, key: &[u8; 32]) -> [u8; 32] {
    ContractState::bind(address, root, store.clone()).get(key).unwrap()
}

#[test]
fn flipper_deploy_and_call() {
    let code = flipper();
    let calldata = vec![1u8; 32];
    let address = digest_pair(&code, &calldata);
    let store = StateTrie::new();
    let deploy = Tx::Deploy { code: code.clone(), calldata: calldata.clone() };
    let (r1, s1) = execute_txs(&store, H256::empty_trie_hash(), vec![deploy]).unwrap();
    assert_eq!(get(&r1, &s1, &contract_code_key(&address)).unwrap(), Some(code));
    assert_eq!(slot(address, r1, &s1, &[1u8; 32]), one());

    let call = Tx::Call { address, calldata: calldata.clone() };
    let (r2, s2) = execute_txs(&s1, r1, vec![call]).unwrap();
    assert_eq!(slot(address, r2, &s2, &[1u8; 32]), [0u8; 32]);
    assert_ne!(r2, r1);
}

#[test]
fn deploy_and_call_in_one_block() {
    let code = flipper();
    let calldata = vec![1u8; 32];
    let address = digest_pair(&code, &calldata);
    let txs = vec![
        Tx::Deploy { code, calldata: calldata.clone() },
        Tx::Call { address, calldata: calldata.clone() },
        Tx::Call { address, calldata },
    ];
    let (root, store) = execute_txs(&StateTrie::new(), H256::empty_trie_hash(), txs).unwrap();
    assert_eq!(slot(address, root, &store, &[1u8; 32]), one());
}

#[test]
fn storage_isolation() {
    let key = [1u8; 32];
    let code_a = flipper_at(100);
    let code_b = flipper_at(200);
    let address_a = digest_pair(&code_a, &key);
    let address_b = digest_pair(&code_b, &key);
    assert_ne!(address_a, address_b);
    let txs = vec![
        Tx::Deploy { code: code_a, calldata: key.to_vec() },
        Tx::Deploy { code: code_b, calldata: key.to_vec() },
    ];
    let (root, store) = execute_txs(&StateTrie::new(), H256::empty_trie_hash(), txs).unwrap();
    // Had the second contract seen the first one's slot, it would have flipped it back.
    assert_eq!(slot(address_a, root, &store, &key), one());
    assert_eq!(slot(address_b, root, &store, &key), one());
    let full_a = contract_storage_key(&address_a, &key);
    let full_b = contract_storage_key(&address_b, &key);
    assert_ne!(full_a, full_b);
    assert_eq!(&full_a[..32], &address_a.0);
    assert_eq!(&full_b[..32], &address_b.0);
    assert_eq!(get(&root, &store, &full_a).unwrap(), Some(one().to_vec()));
    assert_eq!(get(&root, &store, &full_b).unwrap(), Some(one().to_vec()));
    assert_eq!(get(&root, &store, &key).unwrap(), None);
}

#[test]
fn same_code_with_other_calldata_is_another_contract() {
    let code = flipper();
    assert_ne!(digest_pair(&code, &[1u8; 32]), digest_pair(&code, &[2u8; 32]));
}

#[test]
fn call_to_unknown_address_is_refused() {
    let call = Tx::Call { address: H256::from_u64(77), calldata: Vec::new() };
    let r = execute_txs(&StateTrie::new(), H256::empty_trie_hash(), vec![call]);
    assert_eq!(r.err(), Some(ExecError::ContractAbsent));
}

#[test]
fn deploy_of_garbage_fails_the_block() {
    let deploy = Tx::Deploy { code: vec![1, 2, 3], calldata: Vec::new() };
    let r = execute_txs(&StateTrie::new(), H256::empty_trie_hash(), vec![deploy]);
    assert_eq!(r.err(), Some(ExecError::VmFailure));
    let deploy = Tx::Deploy { code: Vec::new(), calldata: Vec::new() };
    let r = execute_txs(&StateTrie::new(), H256::empty_trie_hash(), vec![deploy]);
    assert_eq!(r.err(), Some(ExecError::VmFailure));
}

#[test]
fn block_executor_keeps_the_printed_lines() {
    let mut body = Vec::new();
    body.extend(small(36));
    body.extend(small(2));
    body.extend([0x10, 0x02]);
    let code = module("entrypoint", &body);
    let txs = vec![Tx::Deploy { code, calldata: b"ok".to_vec() }];
    let (result, log) = execute_txs_logged(&StateTrie::new(), H256::empty_trie_hash(), &txs);
    assert!(result.is_ok());
    assert_eq!(log, vec![b"ok".to_vec()]);
}

#[test]
fn execute_returns_the_state_after_the_block() {
    let code = flipper();
    let calldata = vec![1u8; 32];
    let address = digest_pair(&code, &calldata);
    let txs = vec![Tx::Deploy { code, calldata }];
    let block = Block::new(txs.clone(), H256::empty_trie_hash());
    let post = execute(block, GlobalState::default()).unwrap().into_state();
    let (root, store) = execute_txs(&StateTrie::new(), H256::empty_trie_hash(), txs).unwrap();
    assert_eq!(post.len(), store.len());
    assert_eq!(slot(address, root, &post, &[1u8; 32]), one());
}

#[test]
fn fresh_contract_state_is_over_the_empty_trie() {
    let mut state = ContractState::new(H256::from_u64(3));
    assert_eq!(state.root(), H256::empty_trie_hash());
    assert_eq!(state.address(), H256::from_u64(3));
    assert_eq!(state.get(&[4u8; 32]), Ok([0u8; 32]));
    state.set(&[4u8; 32], &[5u8; 32]).unwrap();
    assert_ne!(state.root(), H256::empty_trie_hash());
    assert_eq!(state.get(&[4u8; 32]), Ok([5u8; 32]));
    let (root, store) = state.into_parts();
    let full = keyhash_with_prefix(&H256::from_u64(3).0, &[4u8; 32]);
    assert_eq!(get(&root, &store, &full).unwrap(), Some(vec![5u8; 32]));
}

#[test]
fn contract_state_faults_on_a_dangling_root() {
    let mut state = ContractState::bind(H256::from_u64(3), H256::from_u64(4), StateTrie::new());
    assert!(state.get(&[4u8; 32]).is_err());
    assert!(state.set(&[4u8; 32], &[5u8; 32]).is_err());
    assert_eq!(state.root(), H256::from_u64(4));
}

#[test]
fn storage_fault_is_an_invariant_violation() {
    let code = flipper();
    let calldata = vec![1u8; 32];
    let address = digest_pair(&code, &calldata);
    let (r1, s1) = execute_txs(
        &StateTrie::new(),
        H256::empty_trie_hash(),
        vec![Tx::Deploy { code: code.clone(), calldata: calldata.clone() }],
    )
    .unwrap();
    let _ = r1;
    // Run the contract over a root that the store does not hold.
    let adapter = ContractState::bind(address, H256::from_u64(1), s1);
    let run = run_contract(adapter, &code, calldata);
    assert_eq!(run.result, Err(VmError::Storage));
}

#[test]
fn calldata_that_does_not_fit_the_memory_is_refused() {
    let run = run_contract(TestExt::new(), &flipper(), vec![0u8; MAX_CALLDATA]);
    assert_eq!(run.result, Err(VmError::Memory));
    let run = run_contract(TestExt::new(), &flipper(), vec![0u8; MAX_CALLDATA - 36]);
    assert_eq!(run.result, Ok(()));
    let run = run_contract(TestExt::new(), &flipper(), vec![0u8; MAX_CALLDATA - 35]);
    assert_eq!(run.result, Err(VmError::Memory));
}

#[test]
fn oversized_calldata_fails_the_block() {
    let code = flipper();
    let deploy = Tx::Deploy { code: code.clone(), calldata: vec![0u8; MAX_CALLDATA + 1] };
    let r = execute_txs(&StateTrie::new(), H256::empty_trie_hash(), vec![deploy]);
    assert_eq!(r.err(), Some(ExecError::VmFailure));
    let calldata = vec![1u8; 32];
    let address = digest_pair(&code, &calldata);
    let (root, store) =
        execute_txs(&StateTrie::new(), H256::empty_trie_hash(), vec![Tx::Deploy { code, calldata }]).unwrap();
    let call = Tx::Call { address, calldata: vec![0u8; MAX_CALLDATA + 1] };
    assert_eq!(execute_txs(&store, root, vec![call]).err(), Some(ExecError::VmFailure));
}

#[test]
fn test_ext_can_be_copied() {
    let mut ext = TestExt::new();
    ext.set(&[1u8; 32], &[2u8; 32]).unwrap();
    let copy = ext.clone();
    ext.set(&[1u8; 32], &[3u8; 32]).unwrap();
    assert_eq!(copy.get(&[1u8; 32]), Ok([2u8; 32]));
    assert_eq!(ext.get(&[1u8; 32]), Ok([3u8; 32]));
}
