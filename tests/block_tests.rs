use chain_core::account_address::AccountAddress;
use chain_core::block::{
    Block, BlockBody, BlockHeader, BlockInfo, BlockTemplate, SignedUserTransaction,
};
use chain_core::codec::DecodeError;
use chain_core::hash::HashValue;
use chain_core::u256::U256;

fn hash_of(n: u64) -> HashValue {
    HashValue { w0: n, w1: n + 1, w2: n + 2, w3: n + 3 }
}

fn sample_header() -> BlockHeader {
    BlockHeader::new(
        hash_of(7),
        1_600_000_000,
        42,
        AccountAddress::new([9u8; 16]),
        hash_of(100),
        hash_of(200),
        21_000,
        1_000_000,
        U256 { w0: 0, w1: 0, w2: 1, w3: 5 },
        U256 { w0: 0, w1: 3, w2: 0, w3: 77 },
        vec![1, 2, 3, 4, 5],
    )
}

fn sample_body() -> BlockBody {
    BlockBody::new(vec![
        SignedUserTransaction::new(vec![0xde, 0xad]),
        SignedUserTransaction::new(vec![]),
        SignedUserTransaction::new(vec![7; 40]),
    ])
}

#[test]
fn test_block_hash() {
    let block = Block::new_nil_block_for_test(BlockHeader::genesis_block_header_for_test());
    let _hash = block.id();
}

#[test]
fn block_id_covers_the_body() {
    let header = sample_header();
    let a = Block::new(header.clone(), sample_body());
    let b = Block::new(header, BlockBody::empty());
    assert_eq!(a.id(), a.clone().id());
    assert_ne!(a.id(), b.id());
}

#[test]
fn header_round_trip() {
    let h = sample_header();
    let bytes = h.encode();
    assert_eq!(bytes.len(), 208 + 8 + 5);
    let back = BlockHeader::decode(&bytes).unwrap();
    assert_eq!(back, h);
}

#[test]
fn body_round_trip() {
    let b = sample_body();
    let bytes = b.encode();
    assert_eq!(BlockBody::decode(&bytes).unwrap(), b);
    let empty = BlockBody::empty();
    assert_eq!(BlockBody::decode(&empty.encode()).unwrap(), empty);
}

#[test]
fn block_round_trip() {
    let block = Block::new(sample_header(), sample_body());
    let bytes = block.encode();
    assert_eq!(Block::decode(&bytes).unwrap(), block);
}

#[test]
fn decode_errors() {
    let h = sample_header();
    let mut bytes = h.encode();
    bytes.push(0);
    assert_eq!(BlockHeader::decode(&bytes), Err(DecodeError::TrailingBytes));
    let short = vec![0u8; 100];
    assert_eq!(BlockHeader::decode(&short), Err(DecodeError::Truncated));
    let bad_body = vec![0, 0, 0, 0, 0, 0, 0, 2, 0, 0, 0, 0, 0, 0, 0, 1, 9];
    assert_eq!(BlockBody::decode(&bad_body), Err(DecodeError::Truncated));
}

#[test]
fn u64_fields_are_big_endian() {
    let h = sample_header();
    let bytes = h.encode();
    assert_eq!(&bytes[32..40], &1_600_000_000u64.to_be_bytes());
    assert_eq!(&bytes[40..48], &42u64.to_be_bytes());
}

#[test]
fn genesis_id_is_deterministic() {
    let zero = HashValue::zero();
    let g1 = BlockHeader::genesis_block_header(zero, zero, vec![]);
    let g2 = BlockHeader::genesis_block_header(zero, zero, vec![]);
    assert_eq!(g1.id(), g2.id());
    assert_ne!(g1.id(), zero);
    let other = BlockHeader::genesis_block_header(zero, hash_of(1), vec![]);
    assert_ne!(g1.id(), other.id());
    assert_eq!(g1.number(), 0);
    assert_eq!(g1.parent_hash(), zero);
}

#[test]
fn sha3_of_empty_input() {
    let h = HashValue::from_sha3_256(&vec![]);
    let expected = [
        0xa7, 0xff, 0xc6, 0xf8, 0xbf, 0x1e, 0xd7, 0x66, 0x51, 0xc1, 0x47, 0x56, 0xa0, 0x61, 0xd6,
        0x62, 0xf5, 0x80, 0xff, 0x4d, 0xe4, 0x3b, 0x49, 0xfa, 0x82, 0xd8, 0x0a, 0x4b, 0x80, 0xf8,
        0x43, 0x4a,
    ];
    assert_eq!(h.to_vec(), expected.to_vec());
}

#[test]
fn hash_from_slice() {
    let h = hash_of(3);
    assert_eq!(HashValue::from_slice(&h.to_vec()), Some(h));
    assert_eq!(HashValue::from_slice(&vec![1, 2, 3]), None);
    assert!(HashValue::zero().is_zero());
    assert!(!h.is_zero());
    assert!(hash_of(1).lt(&hash_of(2)));
}

#[test]
fn header_order() {
    let a = BlockHeader::new_block_header_for_test(hash_of(1), 4);
    let b = BlockHeader::new_block_header_for_test(hash_of(1), 5);
    assert_eq!(a.compare(&b), -1);
    assert_eq!(b.compare(&a), 1);
    let mut c = a.clone();
    c.gas_used = 10;
    assert_eq!(c.compare(&a), -1);
    assert_eq!(a.compare(&a), 0);
}

#[test]
fn u256_order() {
    let small = U256::from_u64(u64::MAX);
    let big = U256 { w0: 0, w1: 0, w2: 1, w3: 0 };
    assert!(small.lt(&big));
    assert!(!big.lt(&small));
    assert!(small.le(&small));
    assert!(U256::zero().lt(&small));
}

#[test]
fn template_builds_block() {
    let block = Block::new(sample_header(), sample_body());
    let template = BlockTemplate::from_block(block.clone());
    let rebuilt = template.into_block(vec![1, 2, 3, 4, 5]);
    assert_eq!(rebuilt, block);
    let t2 = BlockTemplate::from_block(block.clone());
    assert_eq!(t2.into_block_header(vec![1, 2, 3, 4, 5]), block.header);
}

#[test]
fn block_info_parts() {
    let info = BlockInfo::new(hash_of(5), vec![hash_of(6), hash_of(7)], 3, 5);
    let id = info.id();
    assert_eq!(id, info.clone().id());
    assert_eq!(info.encode().len(), 32 + 8 + 64 + 16);
    let (block_id, roots, leaves, nodes) = info.into_inner();
    assert_eq!(block_id, hash_of(5));
    assert_eq!(roots.len(), 2);
    assert_eq!((leaves, nodes), (3, 5));
}

#[test]
fn genesis_block_parts() {
    let g = Block::genesis_block(hash_of(1), hash_of(2), vec![9]);
    assert_eq!(g.header().number(), 0);
    assert_eq!(g.header().accumulator_root(), hash_of(1));
    assert_eq!(g.header().state_root(), hash_of(2));
    assert_eq!(g.transactions().len(), 0);
    assert_eq!(g.header().author(), AccountAddress::new([0u8; 16]));
}
