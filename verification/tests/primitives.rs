use arbitrary_state_machine::block::{get_block_by_hash, is_preimage, Block, BlockOracle, MockBlockOracle, Tx};
use arbitrary_state_machine::bytes::{append_bytes, bytes_equal, copy_bytes};
use arbitrary_state_machine::codec::{decode_balance, digest_pair, encode_balance, put_list, put_string, put_uint};
use arbitrary_state_machine::decode::{authenticate, decode_tx, decode_tx_body, decode_txs};
use arbitrary_state_machine::error::ExecError;
use arbitrary_state_machine::guest::{calldata, flip};
use arbitrary_state_machine::hash::H256;
use arbitrary_state_machine::keys::{contract_code_key, contract_storage_key, keyhash_with_prefix};
use arbitrary_state_machine::uint::U256;
use arbitrary_state_machine::vm::{length_header, place_calldata, same_bytes32};
use arbitrary_state_machine::wire::{read_list, read_string, read_strings};

fn hex(text: &str) -> Vec<u8> {
    hex::decode(text).unwrap()
}

fn string_of(data: &[u8]) -> Vec<u8> {
    let mut out = Vec::new();
    put_string(&mut out, data);
    out
}

fn list_of(payload: &[u8]) -> Vec<u8> {
    let mut out = Vec::new();
    put_list(&mut out, payload);
    out
}

fn sample_txs() -> Vec<Tx> {
    vec![
        Tx::Transfer { source: H256::from_u64(1), dest: H256::from_u64(2), amount: U256::from_u64(20) },
        Tx::Deploy { code: vec![0, 0x61, 0x73, 0x6d], calldata: vec![9; 40] },
        Tx::Call { address: H256([7; 32]), calldata: Vec::new() },
        Tx::Transfer { source: H256([0xff; 32]), dest: H256::zero(), amount: U256([u64::MAX; 4]) },
        Tx::Transfer { source: H256::zero(), dest: H256::zero(), amount: U256::zero() },
    ]
}

#[test]
fn keyhash_with_prefix_concatenates() {
    assert_eq!(keyhash_with_prefix(b"ab", b"cde"), b"abcde".to_vec());
    assert_eq!(keyhash_with_prefix(b"", b"x"), b"x".to_vec());
    assert_eq!(keyhash_with_prefix(b"x", b""), b"x".to_vec());
    assert_eq!(keyhash_with_prefix(b"", b""), Vec::<u8>::new());
}

#[test]
fn contract_keys_have_their_prefixes() {
    let address = H256([0xab; 32]);
    let code_key = contract_code_key(&address);
    assert_eq!(&code_key[..12], b"ContractCode");
    assert_eq!(&code_key[12..], &[0xab; 32]);
    let slot_key = contract_storage_key(&address, &[0xcd; 32]);
    assert_eq!(&slot_key[..32], &[0xab; 32]);
    assert_eq!(&slot_key[32..], &[0xcd; 32]);
}

#[test]
fn byte_helpers() {
    assert_eq!(copy_bytes(&[1, 2, 3]), vec![1, 2, 3]);
    assert!(bytes_equal(&[1, 2], &[1, 2]));
    assert!(!bytes_equal(&[1, 2], &[1, 3]));
    assert!(!bytes_equal(&[1, 2], &[1, 2, 3]));
    assert!(bytes_equal(&[], &[]));
    let mut buf = vec![1];
    append_bytes(&mut buf, &[2, 3]);
    assert_eq!(buf, vec![1, 2, 3]);
    assert!(same_bytes32(&[4; 32], &[4; 32]));
    let mut other = [4u8; 32];
    other[31] = 5;
    assert!(!same_bytes32(&[4; 32], &other));
}

#[test]
fn h256_from_u64_is_big_endian() {
    let mut expected = [0u8; 32];
    expected[31] = 1;
    assert_eq!(H256::from_u64(1).0, expected);
    let h = H256::from_u64(0x0102030405060708);
    assert_eq!(&h.0[..24], &[0u8; 24]);
    assert_eq!(&h.0[24..], &[1, 2, 3, 4, 5, 6, 7, 8]);
    assert_eq!(H256::from_u64(u64::MAX).0[24..], [0xff; 8]);
    assert_eq!(H256::from_u64(0), H256::zero());
    for n in [0u64, 1, 255, 256, 0xdead_beef, u64::MAX] {
        assert_eq!(H256::from_u64(n).0, bigint::H256::from(n).0);
    }
}

#[test]
fn h256_constants() {
    assert_eq!(H256::zero().0, [0u8; 32]);
    assert_eq!(H256::new(), H256::zero());
    assert_eq!(H256::default(), H256::zero());
    assert_eq!(H256::empty_trie_hash().0, trie::EMPTY_TRIE_HASH.0);
    assert_ne!(H256::empty_trie_hash(), H256::zero());
}

#[test]
fn h256_conversions() {
    let h = H256([3; 32]);
    assert_eq!(h.to_vec(), vec![3u8; 32]);
    assert_eq!(H256::from_slice(&[3u8; 32]), Some(h));
    assert_eq!(H256::from_slice(&[3u8; 31]), None);
    assert_eq!(H256::from_slice(&[3u8; 33]), None);
    assert_eq!(H256::from_slice(&[]), None);
}

#[test]
fn h256_order_is_that_of_the_bytes() {
    let samples = [
        H256::zero(),
        H256::from_u64(1),
        H256::from_u64(2),
        H256::from_u64(256),
        H256([1; 32]),
        H256([0xff; 32]),
        H256::empty_trie_hash(),
    ];
    for a in samples.iter() {
        for b in samples.iter() {
            assert_eq!(a.less_than(b), a < b);
            assert_eq!(a.less_than(b), a.0 < b.0);
            assert_eq!(a.same(b), a == b);
            assert!(a.same(b) || a.less_than(b) || b.less_than(a));
            assert!(!(a.less_than(b) && b.less_than(a)));
        }
    }
    let mut high_first = [0u8; 32];
    high_first[0] = 1;
    let mut low_last = [0u8; 32];
    low_last[31] = 0xff;
    assert!(H256(low_last).less_than(&H256(high_first)));
}

fn big(value: &U256) -> bigint::U256 {
    bigint::U256(value.0)
}

#[test]
fn u256_addition() {
    assert_eq!(U256::from_u64(2).checked_add(&U256::from_u64(3)), Some(U256::from_u64(5)));
    assert_eq!(U256([u64::MAX, 0, 0, 0]).checked_add(&U256::from_u64(1)), Some(U256([0, 1, 0, 0])));
    assert_eq!(
        U256([u64::MAX, u64::MAX, u64::MAX, 0]).checked_add(&U256::from_u64(1)),
        Some(U256([0, 0, 0, 1]))
    );
    assert_eq!(U256([u64::MAX; 4]).checked_add(&U256::from_u64(1)), None);
    assert_eq!(U256([u64::MAX; 4]).checked_add(&U256::zero()), Some(U256([u64::MAX; 4])));
    assert_eq!(U256([0, 0, 0, 1 << 63]).checked_add(&U256([0, 0, 0, 1 << 63])), None);
    let a = U256([0x1234, u64::MAX, 7, 9]);
    let b = U256([u64::MAX, 1, u64::MAX, 3]);
    assert_eq!(big(&a.checked_add(&b).unwrap()), big(&a) + big(&b));
}

#[test]
fn u256_subtraction() {
    assert_eq!(U256::from_u64(5).checked_sub(&U256::from_u64(3)), Some(U256::from_u64(2)));
    assert_eq!(U256::from_u64(3).checked_sub(&U256::from_u64(3)), Some(U256::zero()));
    assert_eq!(U256::from_u64(3).checked_sub(&U256::from_u64(4)), None);
    assert_eq!(U256([0, 1, 0, 0]).checked_sub(&U256::from_u64(1)), Some(U256([u64::MAX, 0, 0, 0])));
    assert_eq!(
        U256([0, 0, 0, 1]).checked_sub(&U256::from_u64(1)),
        Some(U256([u64::MAX, u64::MAX, u64::MAX, 0]))
    );
    assert_eq!(U256::zero().checked_sub(&U256([0, 0, 0, 1])), None);
    let a = U256([0x1234, 0, 7, 9]);
    let b = U256([u64::MAX, 1, u64::MAX, 3]);
    assert_eq!(big(&a.checked_sub(&b).unwrap()), big(&a) - big(&b));
    assert_eq!(b.checked_sub(&a), None);
}

#[test]
fn u256_comparison() {
    let samples = [
        U256::zero(),
        U256::from_u64(1),
        U256([0, 1, 0, 0]),
        U256([u64::MAX, 0, 0, 0]),
        U256([0, 0, 0, 1]),
        U256([u64::MAX; 4]),
    ];
    for a in samples.iter() {
        for b in samples.iter() {
            assert_eq!(a.gt(b), big(a) > big(b));
            assert_eq!(a.same(b), big(a) == big(b));
        }
    }
    assert_eq!(U256::default(), U256::zero());
}

#[test]
fn u256_from_bytes() {
    assert_eq!(U256::from_be_bytes(&[]), Some(U256::zero()));
    assert_eq!(U256::from_be_bytes(&[1, 0]), Some(U256::from_u64(256)));
    assert_eq!(U256::from_be_bytes(&[0, 0, 7]), Some(U256::from_u64(7)));
    assert_eq!(U256::from_be_bytes(&[0xff; 32]), Some(U256([u64::MAX; 4])));
    assert_eq!(U256::from_be_bytes(&[0; 33]), None);
    let mut nine = [0u8; 9];
    nine[0] = 1;
    assert_eq!(U256::from_be_bytes(&nine), Some(U256([0, 1, 0, 0])));
    assert_eq!(U256::from_u64(1).shift_in(2), Some(U256::from_u64(258)));
    assert_eq!(U256([0, 0, 0, 1 << 56]).shift_in(0), None);
    assert_eq!(U256([0, 0, 0, (1 << 56) - 1]).shift_in(0xff).map(|v| v.0[3]), Some(u64::MAX - 0xff));
}

#[test]
fn balances_are_encoded_shortest_big_endian() {
    assert_eq!(encode_balance(&U256::zero()), vec![0x80]);
    assert_eq!(encode_balance(&U256::from_u64(1)), vec![0x01]);
    assert_eq!(encode_balance(&U256::from_u64(100)), vec![0x64]);
    assert_eq!(encode_balance(&U256::from_u64(127)), vec![0x7f]);
    assert_eq!(encode_balance(&U256::from_u64(128)), vec![0x81, 0x80]);
    assert_eq!(encode_balance(&U256::from_u64(256)), vec![0x82, 0x01, 0x00]);
    assert_eq!(encode_balance(&U256([0, 1, 0, 0])), hex("89010000000000000000"));
    let mut max = vec![0xa0];
    max.extend([0xff; 32]);
    assert_eq!(encode_balance(&U256([u64::MAX; 4])), max);
}

#[test]
fn balances_are_decoded_from_their_encoding() {
    for value in [
        U256::zero(),
        U256::from_u64(1),
        U256::from_u64(127),
        U256::from_u64(128),
        U256::from_u64(65535),
        U256([0, 1, 0, 0]),
        U256([5, 0, 0, 1]),
        U256([u64::MAX; 4]),
    ] {
        assert_eq!(decode_balance(&encode_balance(&value)), Some(value));
    }
    assert_eq!(decode_balance(&[0x64, 0xff, 0xff]), Some(U256::from_u64(100)));
    assert_eq!(decode_balance(&[0x82, 0x01, 0x00, 0x55]), Some(U256::from_u64(256)));
}

#[test]
fn malformed_balances_are_refused() {
    assert_eq!(decode_balance(&[]), None);
    assert_eq!(decode_balance(&[0x00]), None);
    assert_eq!(decode_balance(&[0x81, 0x05]), None);
    assert_eq!(decode_balance(&[0x82, 0x00, 0x01]), None);
    assert_eq!(decode_balance(&[0x82, 0x01]), None);
    assert_eq!(decode_balance(&[0xc0]), None);
    assert_eq!(decode_balance(&[0xb8, 0x01, 0x05]), None);
    assert_eq!(decode_balance(&[0xbf, 0xff, 0xff, 0xff, 0xff, 0xff, 0xff, 0xff, 0xff]), None);
    let mut long = vec![0xa1];
    long.extend([1u8; 33]);
    assert_eq!(decode_balance(&long), None);
}

#[test]
fn strings_are_framed() {
    assert_eq!(string_of(&[]), vec![0x80]);
    assert_eq!(string_of(&[0x00]), vec![0x00]);
    assert_eq!(string_of(&[0x7f]), vec![0x7f]);
    assert_eq!(string_of(&[0x80]), vec![0x81, 0x80]);
    assert_eq!(string_of(b"cat"), vec![0x83, b'c', b'a', b't']);
    let mut expected = vec![0xb7];
    expected.extend([1u8; 55]);
    assert_eq!(string_of(&[1u8; 55]), expected);
    let mut expected = vec![0xb8, 56];
    expected.extend([1u8; 56]);
    assert_eq!(string_of(&[1u8; 56]), expected);
    let mut expected = vec![0xb9, 0x01, 0x00];
    expected.extend([1u8; 256]);
    assert_eq!(string_of(&[1u8; 256]), expected);
    let mut expected = vec![0xba, 0x01, 0x00, 0x00];
    expected.extend(vec![1u8; 65536]);
    assert_eq!(string_of(&vec![1u8; 65536]), expected);
}

#[test]
fn lists_are_framed() {
    assert_eq!(list_of(&[]), vec![0xc0]);
    assert_eq!(list_of(&[0x83, b'c', b'a', b't']), vec![0xc4, 0x83, b'c', b'a', b't']);
    let mut expected = vec![0xf7];
    expected.extend([1u8; 55]);
    assert_eq!(list_of(&[1u8; 55]), expected);
    let mut expected = vec![0xf8, 56];
    expected.extend([1u8; 56]);
    assert_eq!(list_of(&[1u8; 56]), expected);
    let mut expected = vec![0xf9, 0x04, 0x00];
    expected.extend([1u8; 1024]);
    assert_eq!(list_of(&[1u8; 1024]), expected);
}

#[test]
fn items_are_appended() {
    let mut out = vec![0xaa];
    put_string(&mut out, b"a");
    put_uint(&mut out, &U256::from_u64(1024));
    put_list(&mut out, &[]);
    assert_eq!(out, vec![0xaa, b'a', 0x82, 0x04, 0x00, 0xc0]);
}

#[test]
fn digest_is_sha3_256() {
    assert_eq!(
        digest_pair(b"", b"").0.to_vec(),
        hex("a7ffc6f8bf1ed76651c14756a061d662f580ff4de43b49fa82d80a4b80f8434a")
    );
    let abc = hex("3a985da74fe225b2045c172d6bd390bd855f086e3e9d525b46bfe24511431532");
    assert_eq!(digest_pair(b"abc", b"").0.to_vec(), abc);
    assert_eq!(digest_pair(b"a", b"bc").0.to_vec(), abc);
    assert_eq!(digest_pair(b"", b"abc").0.to_vec(), abc);
}

#[test]
fn transactions_are_encoded_as_lists_of_tag_and_fields() {
    let transfer = Tx::Transfer { source: H256([1; 32]), dest: H256([2; 32]), amount: U256::from_u64(20) };
    let mut expected = vec![0xf8, 68, 0x00, 0xa0];
    expected.extend([1u8; 32]);
    expected.push(0xa0);
    expected.extend([2u8; 32]);
    expected.push(20);
    assert_eq!(transfer.encode(), expected);

    let deploy = Tx::Deploy { code: vec![0xaa, 0xbb], calldata: vec![0x05] };
    assert_eq!(deploy.encode(), vec![0xc5, 0x01, 0x82, 0xaa, 0xbb, 0x05]);

    let call = Tx::Call { address: H256([3; 32]), calldata: Vec::new() };
    let mut expected = vec![0xe3, 0x02, 0xa0];
    expected.extend([3u8; 32]);
    expected.push(0x80);
    assert_eq!(call.encode(), expected);
}

#[test]
fn blocks_are_encoded_as_lists_of_their_fields() {
    let mut expected = vec![0xf8, 67, 0xa0];
    expected.extend([0u8; 32]);
    expected.push(0xa0);
    expected.extend([0u8; 32]);
    expected.push(0xc0);
    assert_eq!(Block::default().encode(), expected);

    let block = Block {
        parent_hash: H256([4; 32]),
        state_root: H256([5; 32]),
        txns: vec![Tx::Deploy { code: vec![0xaa, 0xbb], calldata: vec![0x05] }],
    };
    let mut expected = vec![0xf8, 73, 0xa0];
    expected.extend([4u8; 32]);
    expected.push(0xa0);
    expected.extend([5u8; 32]);
    expected.extend([0xc6, 0xc5, 0x01, 0x82, 0xaa, 0xbb, 0x05]);
    assert_eq!(block.encode(), expected);
}

#[test]
fn block_hash_is_the_digest_of_the_encoding() {
    let block = Block { parent_hash: H256([4; 32]), state_root: H256([5; 32]), txns: sample_txs() };
    assert_eq!(block.hash(), digest_pair(&block.encode(), b""));
    assert!(is_preimage(&block, &block.hash()));
    assert!(!is_preimage(&block, &H256::zero()));
    let other = Block { parent_hash: H256([4; 32]), state_root: H256([6; 32]), txns: sample_txs() };
    assert_ne!(block.hash(), other.hash());
    assert_ne!(block.hash(), Block::default().hash());
}

#[test]
fn block_new_has_the_zero_parent() {
    let block = Block::new(sample_txs(), H256([5; 32]));
    assert_eq!(block.parent_hash, H256::zero());
    assert_eq!(block.state_root, H256([5; 32]));
    assert_eq!(block.txns, sample_txs());
    assert_eq!(block.clone(), block);
}

#[test]
fn transactions_are_decoded_from_their_encoding() {
    for tx in sample_txs() {
        let encoded = tx.encode();
        assert_eq!(Tx::decode(&encoded), Some(tx.clone()));
        let mut longer = encoded.clone();
        longer.push(0);
        assert_eq!(Tx::decode(&longer), None);
        assert_eq!(decode_tx(&longer), Some((tx.clone(), encoded.len())));
        assert_eq!(Tx::decode(&encoded[..encoded.len() - 1]), None);
    }
    assert_eq!(decode_txs(&[]), Some(Vec::new()));
    let mut all = Vec::new();
    for tx in sample_txs() {
        all.extend(tx.encode());
    }
    assert_eq!(decode_txs(&all), Some(sample_txs()));
    all.push(0xc0);
    assert_eq!(decode_txs(&all), None);
}

#[test]
fn malformed_transactions_are_refused() {
    assert_eq!(Tx::decode(&[]), None);
    assert_eq!(Tx::decode(&[0xc0]), None);
    assert_eq!(Tx::decode(&[0x80]), None);
    // an unknown tag
    assert_eq!(Tx::decode(&[0xc3, 0x03, 0x80, 0x80]), None);
    assert_eq!(decode_tx_body(&[0x01, 0x80, 0x80]), Some(Tx::Deploy { code: vec![], calldata: vec![] }));
    // one field too few, one too many
    assert_eq!(decode_tx_body(&[0x01, 0x80]), None);
    assert_eq!(decode_tx_body(&[0x01, 0x80, 0x80, 0x80]), None);
    // a tag of two bytes
    assert_eq!(decode_tx_body(&[0x82, 0x01, 0x01, 0x80, 0x80]), None);
    // a call to an address of 31 bytes
    let mut short = vec![0x02, 0x9f];
    short.extend([1u8; 31]);
    short.push(0x80);
    assert_eq!(decode_tx_body(&short), None);
    // an amount with a leading zero byte, and one of 33 bytes
    let mut body = vec![0x00, 0xa0];
    body.extend([1u8; 32]);
    body.push(0xa0);
    body.extend([2u8; 32]);
    let mut leading_zero = body.clone();
    leading_zero.extend([0x82, 0x00, 0x01]);
    assert_eq!(decode_tx_body(&leading_zero), None);
    let mut too_long = body.clone();
    too_long.push(0xa1);
    too_long.extend([1u8; 33]);
    assert_eq!(decode_tx_body(&too_long), None);
    let mut fine = body.clone();
    fine.extend([0x82, 0x01, 0x00]);
    assert_eq!(
        decode_tx_body(&fine),
        Some(Tx::Transfer { source: H256([1; 32]), dest: H256([2; 32]), amount: U256::from_u64(256) })
    );
}

#[test]
fn blocks_are_decoded_from_their_encoding() {
    let blocks = [
        Block::default(),
        Block { parent_hash: H256([4; 32]), state_root: H256([5; 32]), txns: sample_txs() },
        Block::new(vec![Tx::Deploy { code: vec![7; 70000], calldata: vec![8; 300] }], H256([9; 32])),
    ];
    for block in blocks.iter() {
        let encoded = block.encode();
        assert_eq!(Block::decode(&encoded).as_ref(), Some(block));
        let mut longer = encoded.clone();
        longer.push(0x80);
        assert_eq!(Block::decode(&longer), None);
        assert_eq!(Block::decode(&encoded[..encoded.len() - 1]), None);
        assert_eq!(Block::decode(&encoded).unwrap().encode(), encoded);
    }
}

#[test]
fn malformed_blocks_are_refused() {
    assert_eq!(Block::decode(&[]), None);
    assert_eq!(Block::decode(&[0xc0]), None);
    assert_eq!(Block::decode(&[0x80]), None);
    // a state root of 31 bytes
    let mut body = vec![0xa0];
    body.extend([0u8; 32]);
    body.push(0x9f);
    body.extend([0u8; 31]);
    body.push(0xc0);
    assert_eq!(Block::decode(&list_of(&body)), None);
    // a string where the list of transactions must be
    let mut body = vec![0xa0];
    body.extend([0u8; 32]);
    body.push(0xa0);
    body.extend([0u8; 32]);
    body.push(0x80);
    assert_eq!(Block::decode(&list_of(&body)), None);
    // a length that is not written in its shortest form
    let mut encoded = Block::default().encode();
    assert_eq!(encoded[..2], [0xf8, 67]);
    encoded.splice(0..2, [0xf9, 0, 67]);
    assert_eq!(Block::decode(&encoded), None);
}

#[test]
fn fetched_blocks_are_authenticated() {
    let block = Block { parent_hash: H256([4; 32]), state_root: H256([5; 32]), txns: sample_txs() };
    let encoded = block.encode();
    assert_eq!(authenticate(&block.hash(), &encoded), Some(block.clone()));
    assert_eq!(authenticate(&H256([1; 32]), &encoded), None);
    let garbage = vec![1, 2, 3];
    assert_eq!(authenticate(&digest_pair(&garbage, b""), &garbage), None);
}

#[test]
fn headers_are_read() {
    let body = |n: usize| vec![0x99u8; n];
    let with = |header: &[u8], n: usize| {
        let mut out = header.to_vec();
        out.extend(body(n));
        out
    };
    assert_eq!(read_string(&with(&[0xb7], 55)), Some((1, 56)));
    assert_eq!(read_string(&with(&[0xb8, 56], 56)), Some((2, 58)));
    assert_eq!(read_string(&with(&[0xb8, 55], 55)), None);
    assert_eq!(read_string(&[0xb8]), None);
    assert_eq!(read_string(&with(&[0xb9, 0x00, 0xff], 255)), None);
    assert_eq!(read_string(&with(&[0xb9, 0x01, 0x00], 256)), Some((3, 259)));
    assert_eq!(read_string(&with(&[0xba, 0x01, 0x00, 0x00], 65536)), Some((4, 65540)));
    assert_eq!(read_string(&with(&[0xbb, 0x01, 0x00, 0x00, 0x00], 100)), None);
    assert_eq!(read_string(&with(&[0xbc, 1, 0, 0, 0, 0], 100)), None);
    assert_eq!(read_list(&with(&[0xf7], 55)), Some((1, 56)));
    assert_eq!(read_list(&with(&[0xf8, 56], 56)), Some((2, 58)));
    assert_eq!(read_list(&with(&[0xf8, 56], 55)), None);
    assert_eq!(read_list(&with(&[0xf8, 55], 55)), None);
    assert_eq!(read_list(&with(&[0xfc, 1, 0, 0, 0, 0], 100)), None);
    assert_eq!(read_list(&[0xbf]), None);
}

#[test]
fn items_are_read() {
    assert_eq!(read_string(&[0x05, 0xff]), Some((0, 1)));
    assert_eq!(read_string(&[0x80, 0xff]), Some((1, 1)));
    assert_eq!(read_string(&[0x83, b'c', b'a', b't', 0xff]), Some((1, 4)));
    assert_eq!(read_string(&[0x83, b'c', b'a']), None);
    assert_eq!(read_string(&[0x81, 0x05]), None);
    assert_eq!(read_string(&[0x81, 0x80]), Some((1, 2)));
    assert_eq!(read_string(&[0xc0]), None);
    assert_eq!(read_string(&[]), None);
    assert_eq!(read_list(&[0xc0, 0xff]), Some((1, 1)));
    assert_eq!(read_list(&[0xc2, 0x01, 0x02, 0xff]), Some((1, 3)));
    assert_eq!(read_list(&[0xc2, 0x01]), None);
    assert_eq!(read_list(&[0x80]), None);
    assert_eq!(read_strings(&[], 0), Some(Vec::new()));
    assert_eq!(read_strings(&[0x80], 0), None);
    assert_eq!(read_strings(&[0x80, 0x05, 0x82, 1, 2], 3), Some(vec![vec![], vec![5], vec![1, 2]]));
    assert_eq!(read_strings(&[0x80, 0x05, 0x82, 1, 2], 2), None);
    assert_eq!(read_strings(&[0x80, 0x05], 3), None);
    for data in [vec![], vec![0u8], vec![0x7f], vec![0x80], vec![1; 55], vec![1; 56], vec![2; 70000]] {
        let encoded = string_of(&data);
        let (from, to) = read_string(&encoded).unwrap();
        assert_eq!(&encoded[from..to], &data[..]);
        assert_eq!(to, encoded.len());
        let framed = list_of(&data);
        let (from, to) = read_list(&framed).unwrap();
        assert_eq!(&framed[from..to], &data[..]);
    }
}

#[test]
fn oracle_finds_what_was_filed() {
    let mut oracle = MockBlockOracle::default();
    let first = Block::new(sample_txs(), H256([5; 32]));
    let second = Block::default();
    assert!(oracle.get_block_by_hash(&first.hash()).is_none());
    assert_eq!(oracle.insert_block(first.clone()), first.hash());
    assert_eq!(oracle.insert_block(second.clone()), second.hash());
    assert_eq!(oracle.insert_block(first.clone()), first.hash());
    assert_eq!(oracle.get_block_by_hash(&first.hash()), Some(&first));
    assert_eq!(oracle.get_block_by_hash(&second.hash()), Some(&second));
    assert_eq!(get_block_by_hash(second.hash(), &oracle), Ok(second));
    assert_eq!(get_block_by_hash(H256([1; 32]), &oracle), Err(ExecError::OracleMiss));
}

#[test]
fn length_header_is_little_endian() {
    let mut expected = [0u8; 32];
    assert_eq!(length_header(0), expected);
    expected[0] = 0x2c;
    expected[1] = 0x01;
    assert_eq!(length_header(300), expected);
    let header = length_header(0x0102_0304);
    assert_eq!(&header[..5], &[4, 3, 2, 1, 0]);
}

#[test]
fn contract_finds_the_calldata_that_was_placed() {
    for data in [vec![], vec![7u8], vec![1u8; 32], vec![9u8; 1000]] {
        let mut memory = vec![0xee; 4];
        memory.extend(place_calldata(&data).unwrap());
        memory.extend([0xdd; 100]);
        assert_eq!(calldata(&memory), Some(data));
    }
    assert_eq!(calldata(&[0u8; 35]), None);
    assert_eq!(calldata(&[0u8; 36]), Some(Vec::new()));
    let mut memory = vec![0u8; 40];
    memory[4] = 5;
    assert_eq!(calldata(&memory), None);
    memory[4] = 4;
    assert_eq!(calldata(&memory), Some(vec![0u8; 4]));
    memory[4] = 0;
    memory[7] = 1;
    assert_eq!(calldata(&memory), None);
}

#[test]
fn flipper_flips_the_first_byte() {
    assert_eq!(flip(&[0u8; 32])[0], 1);
    assert_eq!(&flip(&[0u8; 32])[1..], &[0u8; 31]);
    let mut one = [0u8; 32];
    one[0] = 1;
    assert_eq!(flip(&one), [0u8; 32]);
    let mut other = [9u8; 32];
    let flipped = flip(&other);
    other[0] = 0;
    assert_eq!(flipped, other);
    assert_eq!(flip(&flip(&[0u8; 32])), [0u8; 32]);
}

#[test]
fn integers_convert_into_identifiers_and_balances() {
    let one: H256 = 1.into();
    assert_eq!(one, H256::from_u64(1));
    assert_eq!(H256::from(0x1234u64), H256::from_u64(0x1234));
    let hundred: U256 = 100.into();
    assert_eq!(hundred, U256::from_u64(100));
    assert_eq!(U256::from(u64::MAX), U256([u64::MAX, 0, 0, 0]));
}
