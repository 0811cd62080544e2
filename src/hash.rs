use crate::codec::{holds_at, lemma_u64_be_len, lemma_holds_split, lemma_parse_u64, parse_u64, read_u64, write_u64, u64_be};
use sha3::Digest;
use vstd::prelude::*;

verus! {

broadcast use lemma_u64_be_len;

/// Length in bytes of a `HashValue`.
pub const HASH_LENGTH: usize = 32;

/// A 256-bit content hash, held as four big-endian words (most significant first).
#[derive(Debug, Clone, Copy, PartialEq, Eq, Structural, Hash)]
pub struct HashValue {
    pub w0: u64,
    pub w1: u64,
    pub w2: u64,
    pub w3: u64,
}

/// Names the SHA3-256 digest of a byte string.
pub uninterp spec fn sha3_256_of(data: Seq<u8>) -> Seq<u8>;

/// Relies on `sha3::Sha3_256::digest`: the digest of the bytes, 32 bytes long.
#[verifier::external_body]
fn sha3_256(data: &Vec<u8>) -> (r: Vec<u8>)
    ensures
        r@ == sha3_256_of(data@),
        r@.len() == 32,
{
    sha3::Sha3_256::digest(data.as_slice()).to_vec()
}

/// Relies on `rand::random`: a fresh random word; nothing is known of its value.
#[verifier::external_body]
pub(crate) fn random_u64() -> (r: u64) {
    rand::random::<u64>()
}

/// The 32 bytes of a hash, most significant first.
pub open spec fn hash_bytes(h: HashValue) -> Seq<u8> {
    u64_be(h.w0) + u64_be(h.w1) + u64_be(h.w2) + u64_be(h.w3)
}

/// Reads a hash from the 32 bytes at `p`.
pub open spec fn parse_hash(s: Seq<u8>, p: int) -> Option<(HashValue, int)> {
    if 0 <= p && p + 32 <= s.len() {
        Some(
            (
                HashValue {
                    w0: parse_u64(s, p).unwrap().0,
                    w1: parse_u64(s, p + 8).unwrap().0,
                    w2: parse_u64(s, p + 16).unwrap().0,
                    w3: parse_u64(s, p + 24).unwrap().0,
                },
                p + 32,
            ),
        )
    } else {
        None
    }
}

/// The hash whose bytes are the SHA3-256 digest of `data`.
pub open spec fn digest_hash(data: Seq<u8>) -> HashValue {
    choose|h: HashValue| hash_bytes(h) == sha3_256_of(data)
}

/// Lexicographic order on the words, which is the order of the hashes' bytes.
pub open spec fn hash_lt(a: HashValue, b: HashValue) -> bool {
    a.w0 < b.w0 || (a.w0 == b.w0 && (a.w1 < b.w1 || (a.w1 == b.w1 && (a.w2 < b.w2 || (a.w2
        == b.w2 && a.w3 < b.w3)))))
}

pub proof fn lemma_parse_hash(s: Seq<u8>, p: int, h: HashValue)
    requires
        holds_at(s, p, hash_bytes(h)),
    ensures
        parse_hash(s, p) == Some((h, p + 32)),
{
    let a = u64_be(h.w0);
    let b = u64_be(h.w1);
    let c = u64_be(h.w2);
    let d = u64_be(h.w3);
    lemma_holds_split(s, p, a + b + c, d);
    lemma_holds_split(s, p, a + b, c);
    lemma_holds_split(s, p, a, b);
    lemma_parse_u64(s, p, h.w0);
    lemma_parse_u64(s, p + 8, h.w1);
    lemma_parse_u64(s, p + 16, h.w2);
    lemma_parse_u64(s, p + 24, h.w3);
}

/// Distinct hashes have distinct bytes.
pub proof fn lemma_hash_bytes_injective(a: HashValue, b: HashValue)
    requires
        hash_bytes(a) == hash_bytes(b),
    ensures
        a == b,
{
    assert(holds_at(hash_bytes(a), 0, hash_bytes(a))) by {
        assert(hash_bytes(a).subrange(0, 32) =~= hash_bytes(a));
    }
    lemma_parse_hash(hash_bytes(a), 0, a);
    lemma_parse_hash(hash_bytes(a), 0, b);
}

/// Appends the 32 bytes of `h`.
pub fn write_hash(out: &mut Vec<u8>, h: &HashValue)
    ensures
        final(out)@ == old(out)@ + hash_bytes(*h),
{
    write_u64(out, h.w0);
    write_u64(out, h.w1);
    write_u64(out, h.w2);
    write_u64(out, h.w3);
    assert(final(out)@ =~= old(out)@ + hash_bytes(*h));
}

/// Reads a hash from the 32 bytes at `pos`.
pub fn read_hash(data: &Vec<u8>, pos: usize) -> (r: Option<(HashValue, usize)>)
    ensures
        match r {
            Some((h, q)) => parse_hash(data@, pos as int) == Some((h, q as int)),
            None => parse_hash(data@, pos as int) is None,
        },
{
    if pos > data.len() || data.len() - pos < 32 {
        return None;
    }
    let (w0, _) = read_u64(data, pos).unwrap();
    let (w1, _) = read_u64(data, pos + 8).unwrap();
    let (w2, _) = read_u64(data, pos + 16).unwrap();
    let (w3, _) = read_u64(data, pos + 24).unwrap();
    Some((HashValue { w0, w1, w2, w3 }, pos + 32))
}

impl HashValue {
    /// The hash whose bytes are all zero; it stands for "no block".
    pub fn zero() -> (r: HashValue)
        ensures
            r == Self::spec_zero(),
    {
        HashValue { w0: 0, w1: 0, w2: 0, w3: 0 }
    }

    /// Whether this is the zero hash.
    pub fn is_zero(&self) -> (r: bool)
        ensures
            r == (*self == Self::spec_zero()),
    {
        self.w0 == 0 && self.w1 == 0 && self.w2 == 0 && self.w3 == 0
    }

    pub open spec fn spec_zero() -> HashValue {
        HashValue { w0: 0, w1: 0, w2: 0, w3: 0 }
    }

    /// Reads a hash from exactly 32 bytes.
    pub fn from_slice(bytes: &Vec<u8>) -> (r: Option<HashValue>)
        ensures
            r is Some <==> bytes@.len() == 32,
            r is Some ==> hash_bytes(r->0) == bytes@,
    {
        if bytes.len() != 32 {
            return None;
        }
        let (h, _) = read_hash(bytes, 0).unwrap();
        proof {
            let ghost s = bytes@;
            assert(hash_bytes(h) =~= s) by {
                let ghost e = hash_bytes(h);
                assert(parse_hash(e, 0) == Some((h, 32int))) by {
                    assert(e.subrange(0, 32) =~= e);
                    lemma_parse_hash(e, 0, h);
                }
                lemma_bytes_of_parse(s, h);
            }
        }
        Some(h)
    }

    /// The 32 bytes of this hash.
    pub fn to_vec(&self) -> (r: Vec<u8>)
        ensures
            r@ == hash_bytes(*self),
    {
        let mut out: Vec<u8> = Vec::new();
        write_hash(&mut out, self);
        assert(out@ =~= hash_bytes(*self));
        out
    }

    /// The SHA3-256 digest of `data`.
    pub fn from_sha3_256(data: &Vec<u8>) -> (r: HashValue)
        ensures
            hash_bytes(r) == sha3_256_of(data@),
            r == digest_hash(data@),
    {
        let d = sha3_256(data);
        let r = Self::from_slice(&d).unwrap();
        proof {
            lemma_hash_bytes_injective(r, digest_hash(data@));
        }
        r
    }

    /// A hash drawn at random.
    pub fn random() -> (r: HashValue) {
        HashValue { w0: random_u64(), w1: random_u64(), w2: random_u64(), w3: random_u64() }
    }

    /// Whether `self` orders before `other` by its bytes.
    pub fn lt(&self, other: &HashValue) -> (r: bool)
        ensures
            r == hash_lt(*self, *other),
    {
        self.w0 < other.w0 || (self.w0 == other.w0 && (self.w1 < other.w1 || (self.w1
            == other.w1 && (self.w2 < other.w2 || (self.w2 == other.w2 && self.w3 < other.w3)))))
    }
}

/// A 32-byte string is the bytes of the hash read from it.
proof fn lemma_bytes_of_parse(s: Seq<u8>, h: HashValue)
    requires
        s.len() == 32,
        parse_hash(s, 0) == Some((h, 32int)),
    ensures
        hash_bytes(h) == s,
{
    lemma_u64_from_bytes(s, 0);
    lemma_u64_from_bytes(s, 8);
    lemma_u64_from_bytes(s, 16);
    lemma_u64_from_bytes(s, 24);
    assert(hash_bytes(h) =~= s);
}

/// Eight bytes are the bytes of the word read from them.
proof fn lemma_u64_from_bytes(s: Seq<u8>, p: int)
    requires
        0 <= p,
        p + 8 <= s.len(),
    ensures
        u64_be(parse_u64(s, p).unwrap().0) == s.subrange(p, p + 8),
{
    let b0 = s[p];
    let b1 = s[p + 1];
    let b2 = s[p + 2];
    let b3 = s[p + 3];
    let b4 = s[p + 4];
    let b5 = s[p + 5];
    let b6 = s[p + 6];
    let b7 = s[p + 7];
    let x = parse_u64(s, p).unwrap().0;
    assert(x == ((b0 as u64) << 56u64) | ((b1 as u64) << 48u64) | ((b2 as u64) << 40u64) | ((
    b3 as u64) << 32u64) | ((b4 as u64) << 24u64) | ((b5 as u64) << 16u64) | ((b6 as u64)
        << 8u64) | (b7 as u64));
    assert((x >> 56u64) as u8 == b0 && (x >> 48u64) as u8 == b1 && (x >> 40u64) as u8 == b2 && (x
        >> 32u64) as u8 == b3 && (x >> 24u64) as u8 == b4 && (x >> 16u64) as u8 == b5 && (x
        >> 8u64) as u8 == b6 && x as u8 == b7) by (bit_vector)
        requires
            x == ((b0 as u64) << 56u64) | ((b1 as u64) << 48u64) | ((b2 as u64) << 40u64) | ((
            b3 as u64) << 32u64) | ((b4 as u64) << 24u64) | ((b5 as u64) << 16u64) | ((
            b6 as u64) << 8u64) | (b7 as u64),
    ;
    reveal(u64_be);
    assert(u64_be(x) =~= s.subrange(p, p + 8));
}

} // verus!
