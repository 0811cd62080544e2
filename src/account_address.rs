use crate::hash::{hash_bytes, random_u64, sha3_256_of, HashValue};
use vstd::string::StringSliceAdditionalSpecFns;
use vstd::prelude::*;

verus! {

/// Length in bytes of an account address.
pub const ADDRESS_LENGTH: usize = 16;

/// How many leading bytes `short_str` shows.
pub const SHORT_STRING_LENGTH: usize = 4;

/// An account address: sixteen bytes.
#[derive(Debug, Clone, Copy, PartialEq, Eq, Hash, PartialOrd, Ord)]
pub struct AccountAddress(pub [u8; 16]);

/// Why a byte string or literal is not an address.
#[derive(Debug, Clone, Copy, PartialEq, Eq, Structural)]
pub enum AddressError {
    /// The literal does not start with `0x`.
    MissingPrefix,
    /// The literal holds a character that is not a hex digit.
    InvalidHex,
    /// The bytes are not sixteen long (for a literal: more than sixteen).
    InvalidLength,
}

/// Whether `c` is an ASCII hex digit, either case.
pub open spec fn is_hex_digit(c: u8) -> bool {
    (48 <= c <= 57) || (65 <= c <= 70) || (97 <= c <= 102)
}

/// The value of a hex digit.
pub open spec fn hex_digit_value(c: u8) -> u8 {
    if 48 <= c <= 57 {
        (c - 48) as u8
    } else if 65 <= c <= 70 {
        (c - 55) as u8
    } else {
        (c - 87) as u8
    }
}

/// The bytes that an even run of hex digits spells, two digits a byte.
pub open spec fn hex_decoded(s: Seq<u8>) -> Seq<u8> {
    Seq::new(
        s.len() / 2,
        |i: int| (hex_digit_value(s[2 * i]) * 16 + hex_digit_value(s[2 * i + 1])) as u8,
    )
}

/// The lower-case hex digit for a value below 16.
pub open spec fn hex_char(v: int) -> char {
    if v < 10 {
        (48 + v) as char
    } else {
        (87 + v) as char
    }
}

/// Lower-case hex digits of the bytes, two per byte.
pub open spec fn hex_encoded(b: Seq<u8>) -> Seq<char> {
    Seq::new(
        2 * b.len(),
        |i: int|
            if i % 2 == 0 {
                hex_char((b[i / 2] / 16) as int)
            } else {
                hex_char((b[i / 2] % 16) as int)
            },
    )
}

/// Relies on `hex::decode`: `Ok` exactly for an even number of hex digits, with the bytes they spell.
#[verifier::external_body]
fn hex_decode(s: &Vec<u8>) -> (r: Option<Vec<u8>>)
    ensures
        r is Some <==> (s@.len() % 2 == 0 && forall|i: int| 0 <= i < s@.len() ==> is_hex_digit(s@[i])),
        r is Some ==> r->0@ == hex_decoded(s@),
{
    hex::decode(s).ok()
}

/// Relies on `hex::encode`: two lower-case hex digits for each byte.
#[verifier::external_body]
fn hex_encode(b: &Vec<u8>) -> (r: String)
    ensures
        r@ == hex_encoded(b@),
{
    hex::encode(b)
}

/// The address that a `0x` literal spells: an odd digit count gets a leading `0`, and fewer
/// than sixteen bytes are padded with leading zero bytes.
pub open spec fn hex_literal_digits(lit: Seq<u8>) -> Seq<u8> {
    let digits = lit.subrange(2, lit.len() as int);
    if digits.len() % 2 == 1 {
        seq![48u8] + digits
    } else {
        digits
    }
}

/// Whether a literal names an address.
pub open spec fn hex_literal_ok(lit: Seq<u8>) -> bool {
    &&& lit.len() >= 2
    &&& lit[0] == 48 && lit[1] == 120
    &&& forall|i: int| 2 <= i < lit.len() ==> is_hex_digit(lit[i])
    &&& hex_literal_digits(lit).len() / 2 <= 16
}

/// The sixteen bytes of a literal that `hex_literal_ok` accepts.
pub open spec fn hex_literal_bytes(lit: Seq<u8>) -> Seq<u8> {
    let b = hex_decoded(hex_literal_digits(lit));
    Seq::new((16 - b.len()) as nat, |i: int| 0u8) + b
}

impl AccountAddress {
    pub fn new(address: [u8; 16]) -> (r: AccountAddress)
        ensures
            r.0@ == address@,
    {
        AccountAddress(address)
    }

    /// The address whose bytes are all zero.
    pub fn default_address() -> (r: AccountAddress)
        ensures
            r.0@ == Seq::new(16, |i: int| 0u8),
    {
        let r = AccountAddress([0u8; 16]);
        assert(r.0@ =~= Seq::new(16, |i: int| 0u8));
        r
    }

    /// An address drawn at random.
    pub fn random() -> (r: AccountAddress) {
        let a = random_u64();
        let b = random_u64();
        let mut bytes = [0u8; 16];
        let mut i: usize = 0;
        while i < 8
            invariant
                i <= 8,
            decreases 8 - i,
        {
            bytes[i] = (a >> (8 * i as u64)) as u8;
            bytes[i + 8] = (b >> (8 * i as u64)) as u8;
            i += 1;
        }
        AccountAddress(bytes)
    }

    /// Hex digits of the first four bytes, for log lines.
    pub fn short_str(&self) -> (r: String)
        ensures
            r@ == hex_encoded(self.0@.subrange(0, 4)),
    {
        let mut head: Vec<u8> = Vec::new();
        let mut i: usize = 0;
        while i < SHORT_STRING_LENGTH
            invariant
                i <= 4,
                head@ == self.0@.subrange(0, i as int),
            decreases 4 - i,
        {
            head.push(self.0[i]);
            i += 1;
            assert(head@ =~= self.0@.subrange(0, i as int));
        }
        hex_encode(&head)
    }

    /// The sixteen bytes, as a vector.
    pub fn to_vec(&self) -> (r: Vec<u8>)
        ensures
            r@ == self.0@,
    {
        let mut v: Vec<u8> = Vec::new();
        let mut i: usize = 0;
        while i < ADDRESS_LENGTH
            invariant
                i <= 16,
                v@ == self.0@.subrange(0, i as int),
            decreases 16 - i,
        {
            v.push(self.0[i]);
            i += 1;
            assert(v@ =~= self.0@.subrange(0, i as int));
        }
        assert(v@ =~= self.0@);
        v
    }

    /// The sixteen bytes.
    pub fn into_inner(self) -> (r: [u8; 16])
        ensures
            r@ == self.0@,
    {
        self.0
    }

    /// An address from exactly sixteen bytes.
    pub fn try_from_bytes(bytes: &Vec<u8>) -> (r: Result<AccountAddress, AddressError>)
        ensures
            r is Ok <==> bytes@.len() == 16,
            r is Ok ==> r->Ok_0.0@ == bytes@,
            r is Err ==> r == Err::<AccountAddress, AddressError>(AddressError::InvalidLength),
    {
        if bytes.len() != ADDRESS_LENGTH {
            return Err(AddressError::InvalidLength);
        }
        let mut a = [0u8; 16];
        let mut i: usize = 0;
        while i < ADDRESS_LENGTH
            invariant
                i <= 16,
                bytes@.len() == 16,
                forall|j: int| 0 <= j < i ==> a@[j] == bytes@[j],
            decreases 16 - i,
        {
            a[i] = bytes[i];
            i += 1;
        }
        assert(a@ =~= bytes@);
        Ok(AccountAddress(a))
    }

    /// Reads an address from exactly 32 hex digits, without a prefix.
    pub fn from_hex(s: &str) -> (r: Result<AccountAddress, AddressError>)
        ensures
            r is Ok <==> (s.spec_bytes().len() == 32 && forall|i: int|
                0 <= i < 32 ==> is_hex_digit(s.spec_bytes()[i])),
            r is Ok ==> r->Ok_0.0@ == hex_decoded(s.spec_bytes()),
    {
        let b = s.as_bytes();
        let mut digits: Vec<u8> = Vec::new();
        let mut i: usize = 0;
        while i < b.len()
            invariant
                i <= b@.len(),
                digits@ == b@.subrange(0, i as int),
            decreases b@.len() - i,
        {
            digits.push(b[i]);
            i += 1;
            assert(digits@ =~= b@.subrange(0, i as int));
        }
        assert(digits@ =~= b@);
        match hex_decode(&digits) {
            Some(bytes) => AccountAddress::try_from_bytes(&bytes),
            None => Err(AddressError::InvalidHex),
        }
    }

    /// The lower-case hex digits of all sixteen bytes.
    pub fn to_hex(&self) -> (r: String)
        ensures
            r@ == hex_encoded(self.0@),
    {
        hex_encode(&self.to_vec())
    }

    /// The address's hash: the SHA3-256 digest of its bytes.
    pub fn crypto_hash(&self) -> (r: HashValue)
        ensures
            hash_bytes(r) == sha3_256_of(self.0@),
    {
        HashValue::from_sha3_256(&self.to_vec())
    }

    /// Parses a `0x` literal such as `0xA550C18`; the digits name the low-order bytes.
    pub fn from_hex_literal(literal: &str) -> (r: Result<AccountAddress, AddressError>)
        ensures
            r is Ok <==> hex_literal_ok(literal.spec_bytes()),
            r is Ok ==> r->Ok_0.0@ == hex_literal_bytes(literal.spec_bytes()),
            r == Err::<AccountAddress, AddressError>(AddressError::MissingPrefix) <==> !(
            literal.spec_bytes().len() >= 2 && literal.spec_bytes()[0] == 48
                && literal.spec_bytes()[1] == 120),
            r == Err::<AccountAddress, AddressError>(AddressError::InvalidHex) <==> (
            literal.spec_bytes().len() >= 2 && literal.spec_bytes()[0] == 48
                && literal.spec_bytes()[1] == 120 && !(forall|i: int|
                2 <= i < literal.spec_bytes().len() ==> is_hex_digit(literal.spec_bytes()[i]))),
    {
        let lit = literal.as_bytes();
        let ghost s = lit@;
        if lit.len() < 2 || lit[0] != 48u8 || lit[1] != 120u8 {
            return Err(AddressError::MissingPrefix);
        }
        let mut digits: Vec<u8> = Vec::new();
        if (lit.len() - 2) % 2 == 1 {
            digits.push(48u8);
        }
        let ghost pre = digits@;
        let mut i: usize = 2;
        while i < lit.len()
            invariant
                2 <= i <= lit@.len(),
                lit@ == s,
                digits@ == pre + s.subrange(2, i as int),
            decreases lit@.len() - i,
        {
            digits.push(lit[i]);
            i += 1;
            assert(digits@ =~= pre + s.subrange(2, i as int));
        }
        assert(digits@ =~= hex_literal_digits(s));
        let decoded = match hex_decode(&digits) {
            Some(d) => d,
            None => {
                proof {
                    if forall|k: int| 2 <= k < s.len() ==> is_hex_digit(s[k]) {
                        assert forall|k: int| 0 <= k < digits@.len() implies is_hex_digit(
                            digits@[k],
                        ) by {
                            if pre.len() == 1 && k == 0 {
                            } else {
                                assert(digits@[k] == s[k - pre.len() + 2]);
                            }
                        }
                    }
                }
                return Err(AddressError::InvalidHex);
            },
        };
        proof {
            assert forall|k: int| 2 <= k < s.len() implies is_hex_digit(s[k]) by {
                assert(digits@[k - 2 + pre.len()] == s[k]);
            }
        }
        if decoded.len() > ADDRESS_LENGTH {
            return Err(AddressError::InvalidLength);
        }
        let mut padded: Vec<u8> = Vec::new();
        let pad = ADDRESS_LENGTH - decoded.len();
        let mut j: usize = 0;
        while j < pad
            invariant
                j <= pad,
                padded@ == Seq::new(j as nat, |k: int| 0u8),
            decreases pad - j,
        {
            padded.push(0u8);
            j += 1;
            assert(padded@ =~= Seq::new(j as nat, |k: int| 0u8));
        }
        let ghost zeros = padded@;
        let mut k: usize = 0;
        while k < decoded.len()
            invariant
                k <= decoded@.len(),
                padded@ == zeros + decoded@.subrange(0, k as int),
            decreases decoded@.len() - k,
        {
            padded.push(decoded[k]);
            k += 1;
            assert(padded@ =~= zeros + decoded@.subrange(0, k as int));
        }
        assert(decoded@.subrange(0, decoded@.len() as int) =~= decoded@);
        assert(padded@ =~= hex_literal_bytes(s));
        AccountAddress::try_from_bytes(&padded)
    }
}

} // verus!
