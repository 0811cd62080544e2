use crate::account_address::AccountAddress;
use crate::codec::{
    bytes_enc, lemma_holds_split, lemma_parse_bytes, lemma_parse_u64, lemma_u64_be_len,
    parse_bytes, parse_u64, read_bytes, read_u64, write_bytes, write_u64, u64_be, DecodeError,
};
use crate::hash::{sha3_256_of, HashValue};
use crate::script::TypeTag;
use vstd::prelude::*;
use vstd::string::StringSliceAdditionalSpecFns;

verus! {

broadcast use lemma_u64_be_len;

/// The tag that starts the access path of a resource.
pub const RESOURCE_TAG: u8 = 1;

/// Name of the coin module.
pub fn coin_module_name() -> (r: String)
    ensures
        r@ == "Starcoin"@,
{
    "Starcoin".to_owned()
}

/// Name of the coin struct.
pub fn coin_struct_name() -> (r: String)
    ensures
        r@ == "T"@,
{
    "T".to_owned()
}

/// Name of the account module.
pub fn account_module_name() -> (r: String)
    ensures
        r@ == "StarcoinAccount"@,
{
    "StarcoinAccount".to_owned()
}

/// Name of the account struct.
pub fn account_struct_name() -> (r: String)
    ensures
        r@ == "T"@,
{
    "T".to_owned()
}

/// Name of the sent-payment event.
pub fn sent_event_name() -> (r: String)
    ensures
        r@ == "SentPaymentEvent"@,
{
    "SentPaymentEvent".to_owned()
}

/// Name of the received-payment event.
pub fn received_event_name() -> (r: String)
    ensures
        r@ == "ReceivedPaymentEvent"@,
{
    "ReceivedPaymentEvent".to_owned()
}

/// The address that holds the core code: all zero.
pub fn core_code_address() -> (r: AccountAddress)
    ensures
        r.0@ == Seq::new(16, |i: int| 0u8),
{
    AccountAddress::default_address()
}

/// The association's address, `0xA550C18`.
pub fn association_address() -> (r: AccountAddress)
    ensures
        r.0@ == Seq::new(12, |i: int| 0u8) + seq![0x0au8, 0x55u8, 0x0cu8, 0x18u8],
{
    let r = AccountAddress::new([0, 0, 0, 0, 0, 0, 0, 0, 0, 0, 0, 0, 0x0a, 0x55, 0x0c, 0x18]);
    assert(r.0@ =~= Seq::new(12, |i: int| 0u8) + seq![0x0au8, 0x55u8, 0x0cu8, 0x18u8]);
    r
}

/// The address that collects transaction fees, `0xFEE`.
pub fn transaction_fee_address() -> (r: AccountAddress)
    ensures
        r.0@ == Seq::new(14, |i: int| 0u8) + seq![0x0fu8, 0xeeu8],
{
    let r = AccountAddress::new([0, 0, 0, 0, 0, 0, 0, 0, 0, 0, 0, 0, 0, 0, 0x0f, 0xee]);
    assert(r.0@ =~= Seq::new(14, |i: int| 0u8) + seq![0x0fu8, 0xeeu8]);
    r
}

/// A struct type: where it is defined, its module, its name and its type parameters.
#[derive(Debug, Clone, PartialEq, Eq, Hash)]
pub struct StructTag {
    pub address: AccountAddress,
    pub module: String,
    pub name: String,
    pub type_params: Vec<TypeTag>,
}

/// A struct tag of the core code with no type parameters.
fn core_struct_tag(module: String, name: String) -> (r: StructTag)
    ensures
        r.address.0@ == Seq::new(16, |i: int| 0u8),
        r.module@ == module@,
        r.name@ == name@,
        r.type_params@.len() == 0,
{
    StructTag { address: core_code_address(), module, name, type_params: Vec::new() }
}

/// The tag of the account resource.
pub fn account_struct_tag() -> (r: StructTag)
    ensures
        r.address.0@ == Seq::new(16, |i: int| 0u8),
        r.module@ == "StarcoinAccount"@,
        r.name@ == "T"@,
        r.type_params@.len() == 0,
{
    core_struct_tag(account_module_name(), account_struct_name())
}

/// The tag of the sent-payment event.
pub fn sent_payment_tag() -> (r: StructTag)
    ensures
        r.address.0@ == Seq::new(16, |i: int| 0u8),
        r.module@ == "StarcoinAccount"@,
        r.name@ == "SentPaymentEvent"@,
        r.type_params@.len() == 0,
{
    core_struct_tag(account_module_name(), sent_event_name())
}

/// The tag of the received-payment event.
pub fn received_payment_tag() -> (r: StructTag)
    ensures
        r.address.0@ == Seq::new(16, |i: int| 0u8),
        r.module@ == "StarcoinAccount"@,
        r.name@ == "ReceivedPaymentEvent"@,
        r.type_params@.len() == 0,
{
    core_struct_tag(account_module_name(), received_event_name())
}

/// An account's resource: its authentication key, balance and sequence number.
#[derive(Debug, Clone, PartialEq, Eq)]
pub struct AccountResource {
    pub authentication_key: Vec<u8>,
    pub balance: u64,
    pub sequence_number: u64,
}

/// The encoding of an account resource: the key with its length, then balance and sequence
/// number.
pub open spec fn account_resource_enc(key: Seq<u8>, balance: u64, sequence_number: u64) -> Seq<u8> {
    bytes_enc(key) + (u64_be(balance) + u64_be(sequence_number))
}

/// Reads a whole byte string as an account resource: (key, balance, sequence number).
pub open spec fn account_resource_decoded(s: Seq<u8>) -> Option<(Seq<u8>, u64, u64)> {
    match parse_bytes(s, 0) {
        Some((key, q)) => match parse_u64(s, q) {
            Some((balance, q2)) => match parse_u64(s, q2) {
                Some((seq_no, q3)) => if q3 == s.len() {
                    Some((key, balance, seq_no))
                } else {
                    None
                },
                None => None,
            },
            None => None,
        },
        None => None,
    }
}

impl AccountResource {
    pub fn new(balance: u64, sequence_number: u64, authentication_key: Vec<u8>) -> (r:
        AccountResource)
        ensures
            r.balance == balance,
            r.sequence_number == sequence_number,
            r.authentication_key@ == authentication_key@,
    {
        AccountResource { authentication_key, balance, sequence_number }
    }

    /// The resource's encoding.
    pub fn encode(&self) -> (r: Vec<u8>)
        ensures
            r@ == account_resource_enc(self.authentication_key@, self.balance, self.sequence_number),
    {
        let mut out: Vec<u8> = Vec::new();
        write_bytes(&mut out, &self.authentication_key);
        write_u64(&mut out, self.balance);
        write_u64(&mut out, self.sequence_number);
        assert(out@ =~= account_resource_enc(
            self.authentication_key@,
            self.balance,
            self.sequence_number,
        ));
        out
    }

    /// Reads the resource from its encoding.
    pub fn make_from(bytes: &Vec<u8>) -> (r: Result<AccountResource, DecodeError>)
        ensures
            r is Ok <==> account_resource_decoded(bytes@) is Some,
            r is Ok ==> (r->Ok_0.authentication_key@, r->Ok_0.balance, r->Ok_0.sequence_number)
                == account_resource_decoded(bytes@)->0,
            r == Err::<AccountResource, DecodeError>(DecodeError::TrailingBytes) <==> (
            account_resource_decoded(bytes@) is None && match parse_bytes(bytes@, 0) {
                Some((_, q)) => match parse_u64(bytes@, q) {
                    Some((_, q2)) => parse_u64(bytes@, q2) is Some,
                    None => false,
                },
                None => false,
            }),
    {
        let (authentication_key, q) = match read_bytes(bytes, 0) {
            Some(x) => x,
            None => {
                return Err(DecodeError::Truncated);
            },
        };
        let (balance, q2) = match read_u64(bytes, q) {
            Some(x) => x,
            None => {
                return Err(DecodeError::Truncated);
            },
        };
        let (sequence_number, q3) = match read_u64(bytes, q2) {
            Some(x) => x,
            None => {
                return Err(DecodeError::Truncated);
            },
        };
        if q3 != bytes.len() {
            return Err(DecodeError::TrailingBytes);
        }
        Ok(AccountResource { authentication_key, balance, sequence_number })
    }

    pub fn sequence_number(&self) -> (r: u64)
        ensures
            r == self.sequence_number,
    {
        self.sequence_number
    }

    pub fn balance(&self) -> (r: u64)
        ensures
            r == self.balance,
    {
        self.balance
    }

    pub fn authentication_key(&self) -> (r: &Vec<u8>)
        ensures
            r@ == self.authentication_key@,
    {
        &self.authentication_key
    }
}

/// Decoding the encoding of an account resource gives back its fields.
pub proof fn law_account_resource_round_trip(r: &AccountResource)
    ensures
        account_resource_decoded(
            account_resource_enc(r.authentication_key@, r.balance, r.sequence_number),
        ) == Some((r.authentication_key@, r.balance, r.sequence_number)),
{
    let k = r.authentication_key@;
    let e = account_resource_enc(k, r.balance, r.sequence_number);
    assert(k.len() == r.authentication_key.len());
    assert(e.subrange(0, e.len() as int) =~= e);
    lemma_holds_split(e, 0, bytes_enc(k), u64_be(r.balance) + u64_be(r.sequence_number));
    lemma_holds_split(e, 8 + k.len() as int, u64_be(r.balance), u64_be(r.sequence_number));
    lemma_parse_bytes(e, 0, k);
    lemma_parse_u64(e, 8 + k.len() as int, r.balance);
    lemma_parse_u64(e, 16 + k.len() as int, r.sequence_number);
}

/// The encoding of a struct tag with no type parameters: address, module, name.
pub open spec fn struct_tag_enc(address: Seq<u8>, module: Seq<u8>, name: Seq<u8>) -> Seq<u8> {
    address + bytes_enc(module) + bytes_enc(name)
}

/// The access path of the account resource: the resource tag, then the digest of the account
/// struct tag's encoding.
pub fn account_resource_path() -> (r: Vec<u8>)
    ensures
        r@ == seq![RESOURCE_TAG] + sha3_256_of(
            struct_tag_enc(
                Seq::new(16, |i: int| 0u8),
                "StarcoinAccount".spec_bytes(),
                "T".spec_bytes(),
            ),
        ),
{
    let address = core_code_address();
    let mut e = address.to_vec();
    let module = slice_to_vec("StarcoinAccount".as_bytes());
    let name = slice_to_vec("T".as_bytes());
    write_bytes(&mut e, &module);
    write_bytes(&mut e, &name);
    let h = HashValue::from_sha3_256(&e);
    let mut r: Vec<u8> = Vec::new();
    r.push(RESOURCE_TAG);
    let hb = h.to_vec();
    let mut i: usize = 0;
    while i < hb.len()
        invariant
            i <= hb@.len(),
            r@ == seq![RESOURCE_TAG] + hb@.subrange(0, i as int),
        decreases hb@.len() - i,
    {
        r.push(hb[i]);
        i += 1;
        assert(r@ =~= seq![RESOURCE_TAG] + hb@.subrange(0, i as int));
    }
    assert(hb@.subrange(0, hb@.len() as int) =~= hb@);
    r
}

/// The bytes of a slice, as a vector.
fn slice_to_vec(s: &[u8]) -> (r: Vec<u8>)
    ensures
        r@ == s@,
{
    let mut r: Vec<u8> = Vec::new();
    let mut i: usize = 0;
    while i < s.len()
        invariant
            i <= s@.len(),
            r@ == s@.subrange(0, i as int),
        decreases s@.len() - i,
    {
        r.push(s[i]);
        i += 1;
        assert(r@ =~= s@.subrange(0, i as int));
    }
    assert(s@.subrange(0, s@.len() as int) =~= s@);
    r
}

} // verus!
