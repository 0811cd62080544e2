use vstd::prelude::*;

verus! {

/// Why a byte string could not be read back into a value.
#[derive(Debug, Clone, Copy, PartialEq, Eq, Structural)]
pub enum DecodeError {
    /// The input ended before the value was complete.
    Truncated,
    /// A whole value was read but bytes were left over.
    TrailingBytes,
}

/// Big-endian, fixed-width encoding of a `u64`.
#[verifier::opaque]
pub open spec fn u64_be(x: u64) -> Seq<u8> {
    seq![
        (x >> 56u64) as u8,
        (x >> 48u64) as u8,
        (x >> 40u64) as u8,
        (x >> 32u64) as u8,
        (x >> 24u64) as u8,
        (x >> 16u64) as u8,
        (x >> 8u64) as u8,
        x as u8,
    ]
}

pub broadcast proof fn lemma_u64_be_len(x: u64)
    ensures
        #[trigger] u64_be(x).len() == 8,
{
    reveal(u64_be);
}

/// The `u64` whose big-endian bytes start at `p` in `s`.
pub open spec fn u64_at(s: Seq<u8>, p: int) -> u64 {
    ((s[p] as u64) << 56u64) | ((s[p + 1] as u64) << 48u64) | ((s[p + 2] as u64) << 40u64) | ((
    s[p + 3] as u64) << 32u64) | ((s[p + 4] as u64) << 24u64) | ((s[p + 5] as u64) << 16u64) | ((
    s[p + 6] as u64) << 8u64) | (s[p + 7] as u64)
}

/// Reads a `u64` at `p`, if eight bytes are there.
pub open spec fn parse_u64(s: Seq<u8>, p: int) -> Option<(u64, int)> {
    if 0 <= p && p + 8 <= s.len() {
        Some((u64_at(s, p), p + 8))
    } else {
        None
    }
}

/// A byte string, prefixed by its length as a `u64`.
pub open spec fn bytes_enc(b: Seq<u8>) -> Seq<u8> {
    u64_be(b.len() as u64) + b
}

/// Reads a length-prefixed byte string at `p`.
pub open spec fn parse_bytes(s: Seq<u8>, p: int) -> Option<(Seq<u8>, int)> {
    match parse_u64(s, p) {
        Some((n, q)) => if q + n <= s.len() {
            Some((s.subrange(q, q + n), q + n))
        } else {
            None
        },
        None => None,
    }
}

/// `s` holds `e` at position `p`.
pub open spec fn holds_at(s: Seq<u8>, p: int, e: Seq<u8>) -> bool {
    0 <= p && p + e.len() <= s.len() && s.subrange(p, p + e.len()) == e
}

pub proof fn lemma_u64_bytes_round_trip(x: u64)
    ensures
        u64_at(u64_be(x), 0) == x,
{
    reveal(u64_be);
    let b0 = (x >> 56u64) as u8;
    let b1 = (x >> 48u64) as u8;
    let b2 = (x >> 40u64) as u8;
    let b3 = (x >> 32u64) as u8;
    let b4 = (x >> 24u64) as u8;
    let b5 = (x >> 16u64) as u8;
    let b6 = (x >> 8u64) as u8;
    let b7 = x as u8;
    assert(((b0 as u64) << 56u64) | ((b1 as u64) << 48u64) | ((b2 as u64) << 40u64) | ((
    b3 as u64) << 32u64) | ((b4 as u64) << 24u64) | ((b5 as u64) << 16u64) | ((b6 as u64)
        << 8u64) | (b7 as u64) == x) by (bit_vector)
        requires
            b0 == (x >> 56u64) as u8,
            b1 == (x >> 48u64) as u8,
            b2 == (x >> 40u64) as u8,
            b3 == (x >> 32u64) as u8,
            b4 == (x >> 24u64) as u8,
            b5 == (x >> 16u64) as u8,
            b6 == (x >> 8u64) as u8,
            b7 == x as u8,
    ;
}

/// Splitting what is held at `p` into its two parts.
pub proof fn lemma_holds_split(s: Seq<u8>, p: int, a: Seq<u8>, b: Seq<u8>)
    requires
        holds_at(s, p, a + b),
    ensures
        holds_at(s, p, a),
        holds_at(s, p + a.len(), b),
{
    assert(s.subrange(p, p + a.len()) =~= (a + b).subrange(0, a.len() as int));
    assert((a + b).subrange(0, a.len() as int) =~= a);
    assert(s.subrange(p + a.len(), p + a.len() + b.len()) =~= (a + b).subrange(
        a.len() as int,
        (a + b).len() as int,
    ));
    assert((a + b).subrange(a.len() as int, (a + b).len() as int) =~= b);
}

/// What is held inside something held at `p` is held in `s` too.
pub proof fn lemma_holds_within(s: Seq<u8>, p: int, big: Seq<u8>, q: int, small: Seq<u8>)
    requires
        holds_at(s, p, big),
        holds_at(big, q, small),
    ensures
        holds_at(s, p + q, small),
{
    assert(s.subrange(p + q, p + q + small.len()) =~= big.subrange(q, q + small.len()));
}

pub proof fn lemma_parse_u64(s: Seq<u8>, p: int, x: u64)
    requires
        holds_at(s, p, u64_be(x)),
    ensures
        parse_u64(s, p) == Some((x, p + 8)),
{
    reveal(u64_be);
    lemma_u64_bytes_round_trip(x);
    let e = u64_be(x);
    assert(forall|i: int| 0 <= i < 8 ==> s[p + i] == #[trigger] e[i]) by {
        assert forall|i: int| 0 <= i < 8 implies s[p + i] == #[trigger] e[i] by {
            assert(s.subrange(p, p + 8)[i] == s[p + i]);
        }
    }
    assert(s[p] == e[0] && s[p + 1] == e[1] && s[p + 2] == e[2] && s[p + 3] == e[3]);
    assert(s[p + 4] == e[4] && s[p + 5] == e[5] && s[p + 6] == e[6] && s[p + 7] == e[7]);
}

pub proof fn lemma_parse_bytes(s: Seq<u8>, p: int, b: Seq<u8>)
    requires
        holds_at(s, p, bytes_enc(b)),
        b.len() <= u64::MAX,
    ensures
        parse_bytes(s, p) == Some((b, p + 8 + b.len())),
{
    broadcast use lemma_u64_be_len;

    lemma_holds_split(s, p, u64_be(b.len() as u64), b);
    lemma_parse_u64(s, p, b.len() as u64);
}

/// Appends the big-endian bytes of `x`.
pub fn write_u64(out: &mut Vec<u8>, x: u64)
    ensures
        final(out)@ == old(out)@ + u64_be(x),
{
    out.push((x >> 56u64) as u8);
    out.push((x >> 48u64) as u8);
    out.push((x >> 40u64) as u8);
    out.push((x >> 32u64) as u8);
    out.push((x >> 24u64) as u8);
    out.push((x >> 16u64) as u8);
    out.push((x >> 8u64) as u8);
    out.push(x as u8);
    reveal(u64_be);
    assert(final(out)@ =~= old(out)@ + u64_be(x));
}

/// Reads the `u64` whose big-endian bytes start at `pos`.
pub fn read_u64(data: &Vec<u8>, pos: usize) -> (r: Option<(u64, usize)>)
    ensures
        match r {
            Some((x, q)) => parse_u64(data@, pos as int) == Some((x, q as int)),
            None => parse_u64(data@, pos as int) is None,
        },
{
    if pos > data.len() || data.len() - pos < 8 {
        return None;
    }
    let x: u64 = ((data[pos] as u64) << 56u64) | ((data[pos + 1] as u64) << 48u64) | ((data[pos
        + 2] as u64) << 40u64) | ((data[pos + 3] as u64) << 32u64) | ((data[pos + 4] as u64)
        << 24u64) | ((data[pos + 5] as u64) << 16u64) | ((data[pos + 6] as u64) << 8u64) | (data[pos
        + 7] as u64);
    Some((x, pos + 8))
}

/// Appends `b` with its length in front.
pub fn write_bytes(out: &mut Vec<u8>, b: &Vec<u8>)
    ensures
        final(out)@ == old(out)@ + bytes_enc(b@),
{
    broadcast use lemma_u64_be_len;

    write_u64(out, b.len() as u64);
    let mut i: usize = 0;
    let ghost start = out@;
    while i < b.len()
        invariant
            i <= b.len(),
            out@ == start + b@.subrange(0, i as int),
        decreases b.len() - i,
    {
        out.push(b[i]);
        i += 1;
        assert(out@ =~= start + b@.subrange(0, i as int));
    }
    assert(b@.subrange(0, b.len() as int) =~= b@);
    assert(final(out)@ =~= old(out)@ + bytes_enc(b@));
}

/// Copies `n` bytes starting at `pos`.
pub fn copy_range(data: &Vec<u8>, pos: usize, n: usize) -> (r: Vec<u8>)
    requires
        pos + n <= data@.len(),
    ensures
        r@ == data@.subrange(pos as int, pos + n),
{
    let mut r: Vec<u8> = Vec::new();
    let mut i: usize = 0;
    while i < n
        invariant
            i <= n,
            pos + n <= data.len(),
            r@ == data@.subrange(pos as int, pos + i),
        decreases n - i,
    {
        r.push(data[pos + i]);
        i += 1;
        assert(r@ =~= data@.subrange(pos as int, pos + i));
    }
    r
}

/// Reads a length-prefixed byte string at `pos`.
pub fn read_bytes(data: &Vec<u8>, pos: usize) -> (r: Option<(Vec<u8>, usize)>)
    ensures
        match r {
            Some((b, q)) => parse_bytes(data@, pos as int) == Some((b@, q as int)),
            None => parse_bytes(data@, pos as int) is None,
        },
{
    match read_u64(data, pos) {
        None => None,
        Some((n, q)) => {
            if n > (data.len() - q) as u64 {
                None
            } else {
                let b = copy_range(data, q, n as usize);
                Some((b, q + n as usize))
            }
        },
    }
}

} // verus!
