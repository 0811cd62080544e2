use crate::codec::{holds_at, lemma_u64_be_len, lemma_holds_split, lemma_parse_u64, parse_u64, read_u64, write_u64, u64_be};
use vstd::prelude::*;

verus! {

broadcast use lemma_u64_be_len;

/// The word base, 2^64.
pub open spec fn base() -> nat {
    0x1_0000_0000_0000_0000nat
}

/// An unsigned 256-bit integer, held as four words, most significant first.
#[derive(Debug, Clone, Copy, PartialEq, Eq, Structural, Hash)]
pub struct U256 {
    pub w0: u64,
    pub w1: u64,
    pub w2: u64,
    pub w3: u64,
}

impl U256 {
    /// The number this value stands for.
    pub open spec fn value(self) -> nat {
        ((self.w0 as nat * base() + self.w1 as nat) * base() + self.w2 as nat) * base()
            + self.w3 as nat
    }

    pub fn zero() -> (r: U256)
        ensures
            r.value() == 0,
    {
        U256 { w0: 0, w1: 0, w2: 0, w3: 0 }
    }

    pub fn from_u64(x: u64) -> (r: U256)
        ensures
            r.value() == x as nat,
    {
        U256 { w0: 0, w1: 0, w2: 0, w3: x }
    }

    /// Whether `self` is less than `other`.
    pub fn lt(&self, other: &U256) -> (r: bool)
        ensures
            r == (self.value() < other.value()),
    {
        proof {
            lemma_value_order(*self, *other);
        }
        self.w0 < other.w0 || (self.w0 == other.w0 && (self.w1 < other.w1 || (self.w1
            == other.w1 && (self.w2 < other.w2 || (self.w2 == other.w2 && self.w3 < other.w3)))))
    }

    /// Whether `self` is at most `other`.
    pub fn le(&self, other: &U256) -> (r: bool)
        ensures
            r == (self.value() <= other.value()),
    {
        !other.lt(self)
    }
}

/// The 32 bytes of a `U256`, most significant first.
pub open spec fn u256_bytes(x: U256) -> Seq<u8> {
    u64_be(x.w0) + u64_be(x.w1) + u64_be(x.w2) + u64_be(x.w3)
}

/// Reads a `U256` from the 32 bytes at `p`.
pub open spec fn parse_u256(s: Seq<u8>, p: int) -> Option<(U256, int)> {
    if 0 <= p && p + 32 <= s.len() {
        Some(
            (
                U256 {
                    w0: parse_u64(s, p).unwrap().0,
                    w1: parse_u64(s, p + 8).unwrap().0,
                    w2: parse_u64(s, p + 16).unwrap().0,
                    w3: parse_u64(s, p + 24).unwrap().0,
                },
                p + 32,
            ),
        )
    } else {
        None
    }
}

pub proof fn lemma_parse_u256(s: Seq<u8>, p: int, x: U256)
    requires
        holds_at(s, p, u256_bytes(x)),
    ensures
        parse_u256(s, p) == Some((x, p + 32)),
{
    let a = u64_be(x.w0);
    let b = u64_be(x.w1);
    let c = u64_be(x.w2);
    let d = u64_be(x.w3);
    lemma_holds_split(s, p, a + b + c, d);
    lemma_holds_split(s, p, a + b, c);
    lemma_holds_split(s, p, a, b);
    lemma_parse_u64(s, p, x.w0);
    lemma_parse_u64(s, p + 8, x.w1);
    lemma_parse_u64(s, p + 16, x.w2);
    lemma_parse_u64(s, p + 24, x.w3);
}

/// One more word below a prefix keeps the order of the prefixes, then of the words.
proof fn lemma_digit_order(h1: nat, x1: nat, h2: nat, x2: nat)
    requires
        x1 < base(),
        x2 < base(),
    ensures
        (h1 * base() + x1 < h2 * base() + x2) == (h1 < h2 || (h1 == h2 && x1 < x2)),
        (h1 * base() + x1 == h2 * base() + x2) == (h1 == h2 && x1 == x2),
{
    if h1 < h2 {
        assert(h1 * base() + base() <= h2 * base()) by (nonlinear_arith)
            requires
                h1 < h2,
        ;
    } else if h2 < h1 {
        assert(h2 * base() + base() <= h1 * base()) by (nonlinear_arith)
            requires
                h2 < h1,
        ;
    }
}

pub proof fn lemma_value_order(a: U256, b: U256)
    ensures
        (a.value() < b.value()) == (a.w0 < b.w0 || (a.w0 == b.w0 && (a.w1 < b.w1 || (a.w1
            == b.w1 && (a.w2 < b.w2 || (a.w2 == b.w2 && a.w3 < b.w3)))))),
{
    let a0 = a.w0 as nat;
    let b0 = b.w0 as nat;
    let a1 = a0 * base() + a.w1 as nat;
    let b1 = b0 * base() + b.w1 as nat;
    let a2 = a1 * base() + a.w2 as nat;
    let b2 = b1 * base() + b.w2 as nat;
    lemma_digit_order(a0, a.w1 as nat, b0, b.w1 as nat);
    lemma_digit_order(a1, a.w2 as nat, b1, b.w2 as nat);
    lemma_digit_order(a2, a.w3 as nat, b2, b.w3 as nat);
}

/// Appends the 32 bytes of `x`.
pub fn write_u256(out: &mut Vec<u8>, x: &U256)
    ensures
        final(out)@ == old(out)@ + u256_bytes(*x),
{
    write_u64(out, x.w0);
    write_u64(out, x.w1);
    write_u64(out, x.w2);
    write_u64(out, x.w3);
    assert(final(out)@ =~= old(out)@ + u256_bytes(*x));
}

/// Reads a `U256` from the 32 bytes at `pos`.
pub fn read_u256(data: &Vec<u8>, pos: usize) -> (r: Option<(U256, usize)>)
    ensures
        match r {
            Some((x, q)) => parse_u256(data@, pos as int) == Some((x, q as int)),
            None => parse_u256(data@, pos as int) is None,
        },
{
    if pos > data.len() || data.len() - pos < 32 {
        return None;
    }
    let (w0, _) = read_u64(data, pos).unwrap();
    let (w1, _) = read_u64(data, pos + 8).unwrap();
    let (w2, _) = read_u64(data, pos + 16).unwrap();
    let (w3, _) = read_u64(data, pos + 24).unwrap();
    Some((U256 { w0, w1, w2, w3 }, pos + 32))
}

} // verus!
