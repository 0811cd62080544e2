use chain_core::account_address::{AccountAddress, AddressError};
use chain_core::account_config::{
    account_module_name, account_resource_path, account_struct_name, account_struct_tag,
    association_address, coin_module_name, coin_struct_name, core_code_address,
    received_event_name, received_payment_tag, sent_event_name, sent_payment_tag,
    transaction_fee_address, AccountResource,
};
use chain_core::codec::DecodeError;
use chain_core::output_format::OutputFormat;
use chain_core::consensus::{DummyConsensus, DummyHeader};
use chain_core::script::{Script, TransactionArgument, TypeTag};
use chain_core::u256::U256;

#[test]
fn hex_literals() {
    assert_eq!(AccountAddress::from_hex_literal("0xA550C18").unwrap(), association_address());
    assert_eq!(AccountAddress::from_hex_literal("0xFEE").unwrap(), transaction_fee_address());
    assert_eq!(AccountAddress::from_hex_literal("0x0").unwrap(), core_code_address());
    let full = "0x000102030405060708090a0b0c0d0e0f";
    let a = AccountAddress::from_hex_literal(full).unwrap();
    assert_eq!(a.into_inner(), [0, 1, 2, 3, 4, 5, 6, 7, 8, 9, 10, 11, 12, 13, 14, 15]);
    assert_eq!(AccountAddress::from_hex_literal("A550C18"), Err(AddressError::MissingPrefix));
    assert_eq!(AccountAddress::from_hex_literal("0xZZ"), Err(AddressError::InvalidHex));
    assert_eq!(
        AccountAddress::from_hex_literal("0x000102030405060708090a0b0c0d0e0f10"),
        Err(AddressError::InvalidLength)
    );
}

#[test]
fn address_bytes() {
    let a = AccountAddress::new([0xab; 16]);
    assert_eq!(a.to_vec(), vec![0xab; 16]);
    assert_eq!(a.short_str(), "abababab");
    assert_eq!(AccountAddress::try_from_bytes(&vec![1; 16]).unwrap().into_inner(), [1; 16]);
    assert_eq!(AccountAddress::try_from_bytes(&vec![1; 15]), Err(AddressError::InvalidLength));
    assert_eq!(AccountAddress::default_address().into_inner(), [0; 16]);
    let _ = AccountAddress::random();
}

#[test]
fn names_and_tags() {
    assert_eq!(coin_module_name(), "Starcoin");
    assert_eq!(coin_struct_name(), "T");
    assert_eq!(account_module_name(), "StarcoinAccount");
    assert_eq!(account_struct_name(), "T");
    assert_eq!(sent_event_name(), "SentPaymentEvent");
    assert_eq!(received_event_name(), "ReceivedPaymentEvent");
    let tag = account_struct_tag();
    assert_eq!(tag.address, core_code_address());
    assert_eq!(tag.module, "StarcoinAccount");
    assert_eq!(tag.name, "T");
    assert!(tag.type_params.is_empty());
    assert_eq!(sent_payment_tag().name, "SentPaymentEvent");
    assert_eq!(received_payment_tag().name, "ReceivedPaymentEvent");
}

#[test]
fn resource_path() {
    let p = account_resource_path();
    assert_eq!(p.len(), 33);
    assert_eq!(p[0], 1);
    assert_eq!(p, account_resource_path());
}

#[test]
fn account_resource_codec() {
    let r = AccountResource::new(100, 7, vec![1, 2, 3]);
    let bytes = r.encode();
    let back = AccountResource::make_from(&bytes).unwrap();
    assert_eq!(back, r);
    assert_eq!(back.balance(), 100);
    assert_eq!(back.sequence_number(), 7);
    assert_eq!(back.authentication_key(), &vec![1, 2, 3]);
    assert_eq!(AccountResource::make_from(&bytes[..10].to_vec()), Err(DecodeError::Truncated));
    let mut longer = bytes.clone();
    longer.push(0);
    assert_eq!(AccountResource::make_from(&longer), Err(DecodeError::TrailingBytes));
}

#[test]
fn script_parts() {
    let s = Script::new(vec![1, 2], vec![TypeTag::U64], vec![TransactionArgument::U64(5)]);
    assert_eq!(s.code(), &vec![1, 2]);
    assert_eq!(s.ty_args(), &vec![TypeTag::U64]);
    assert_eq!(s.args(), &vec![TransactionArgument::U64(5)]);
    let (code, args) = s.into_inner();
    assert_eq!(code, vec![1, 2]);
    assert_eq!(args, vec![TransactionArgument::U64(5)]);
}

#[test]
fn output_format() {
    assert_eq!(OutputFormat::parse("json"), OutputFormat::JSON);
    assert_eq!(OutputFormat::parse("table"), OutputFormat::TABLE);
    assert_eq!(OutputFormat::parse("JSON"), OutputFormat::TABLE);
}

#[test]
fn whole_hex_addresses() {
    let a = AccountAddress::new([0, 1, 2, 3, 4, 5, 6, 7, 8, 9, 10, 11, 12, 13, 14, 0xff]);
    let s = a.to_hex();
    assert_eq!(s, "000102030405060708090a0b0c0d0eff");
    assert_eq!(AccountAddress::from_hex(&s).unwrap(), a);
    assert_eq!(AccountAddress::from_hex("0001"), Err(AddressError::InvalidLength));
    assert_eq!(AccountAddress::from_hex("xyz"), Err(AddressError::InvalidHex));
    assert_eq!(a.crypto_hash(), a.crypto_hash());
    assert_ne!(a.crypto_hash(), AccountAddress::new([0; 16]).crypto_hash());
}

#[test]
fn dummy_consensus() {
    for _ in 0..50 {
        let d = DummyConsensus::calculate_next_difficulty(0);
        assert!(U256::from_u64(1).le(&d) && d.lt(&U256::from_u64(1000)));
        let d2 = DummyConsensus::calculate_next_difficulty(3);
        assert!(U256::from_u64(1).le(&d2) && d2.lt(&U256::from_u64(3000)));
    }
    assert!(DummyHeader::from_bytes(vec![1, 2]).to_bytes().is_empty());
}
