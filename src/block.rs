use crate::account_address::AccountAddress;
use crate::block_store::{hashes_enc, lemma_hashes_enc_at, lemma_hashes_enc_len};
use crate::codec::{
    lemma_holds_within, bytes_enc, lemma_u64_be_len, holds_at, lemma_holds_split, lemma_parse_bytes, lemma_parse_u64, parse_bytes,
    parse_u64, read_bytes, read_u64, write_bytes, write_u64, u64_at, u64_be, DecodeError,
};
use crate::hash::{
    digest_hash, hash_bytes, lemma_hash_bytes_injective, lemma_parse_hash, parse_hash, read_hash, sha3_256_of, write_hash, HashValue,
};
use crate::u256::{lemma_parse_u256, parse_u256, read_u256, u256_bytes, write_u256, U256};
use vstd::prelude::*;

verus! {

broadcast use lemma_u64_be_len;

/// Type for block number.
pub type BlockNumber = u64;

/// Bytes of a header before its consensus field.
pub const HEADER_FIXED_LENGTH: usize = 208;

/// A transaction as a block carries it: its signed bytes, which the executor reads.
#[derive(Debug, Clone, PartialEq, Eq, Hash, Default)]
pub struct SignedUserTransaction {
    pub raw: Vec<u8>,
}

impl View for SignedUserTransaction {
    type V = Seq<u8>;

    open spec fn view(&self) -> Seq<u8> {
        self.raw@
    }
}

impl SignedUserTransaction {
    pub fn new(raw: Vec<u8>) -> (r: SignedUserTransaction)
        ensures
            r@ == raw@,
    {
        SignedUserTransaction { raw }
    }

    /// A copy with the same bytes.
    pub fn duplicate(&self) -> (r: SignedUserTransaction)
        ensures
            r@ == self@,
    {
        let raw = self.raw.clone();
        assert(raw@ =~= self.raw@);
        SignedUserTransaction { raw }
    }

    /// The transaction's hash: the SHA3-256 digest of its bytes.
    pub fn id(&self) -> (r: HashValue)
        ensures
            hash_bytes(r) == sha3_256_of(self@),
            r == digest_hash(self@),
    {
        HashValue::from_sha3_256(&self.raw)
    }
}

/// A block header.
#[derive(Debug, Clone, PartialEq, Eq, Hash)]
pub struct BlockHeader {
    /// Parent hash.
    pub parent_hash: HashValue,
    /// Block timestamp.
    pub timestamp: u64,
    /// Block number.
    pub number: BlockNumber,
    /// Block author.
    pub author: AccountAddress,
    /// The accumulator root hash after executing this block.
    pub accumulator_root: HashValue,
    /// The state root after executing this block.
    pub state_root: HashValue,
    /// Gas used by the block's transactions.
    pub gas_used: u64,
    /// Block gas limit.
    pub gas_limit: u64,
    /// Block difficulty.
    pub difficult: U256,
    /// Difficulty summed from genesis up to this block.
    pub total_difficult: U256,
    /// Consensus extension bytes.
    pub consensus_header: Vec<u8>,
}

/// What a header holds, as values.
pub struct BlockHeaderView {
    pub parent_hash: HashValue,
    pub timestamp: u64,
    pub number: u64,
    pub author: Seq<u8>,
    pub accumulator_root: HashValue,
    pub state_root: HashValue,
    pub gas_used: u64,
    pub gas_limit: u64,
    pub difficult: U256,
    pub total_difficult: U256,
    pub consensus_header: Seq<u8>,
}

impl View for BlockHeader {
    type V = BlockHeaderView;

    open spec fn view(&self) -> BlockHeaderView {
        BlockHeaderView {
            parent_hash: self.parent_hash,
            timestamp: self.timestamp,
            number: self.number,
            author: self.author.0@,
            accumulator_root: self.accumulator_root,
            state_root: self.state_root,
            gas_used: self.gas_used,
            gas_limit: self.gas_limit,
            difficult: self.difficult,
            total_difficult: self.total_difficult,
            consensus_header: self.consensus_header@,
        }
    }
}

/// The encoding of a header: its fields in order, words big-endian, the consensus bytes
/// prefixed by their length.
pub open spec fn header_enc(v: BlockHeaderView) -> Seq<u8> {
    hash_bytes(v.parent_hash) + (u64_be(v.timestamp) + (u64_be(v.number) + (v.author + (
    hash_bytes(v.accumulator_root) + (hash_bytes(v.state_root) + (u64_be(v.gas_used) + (u64_be(
        v.gas_limit,
    ) + (u256_bytes(v.difficult) + (u256_bytes(v.total_difficult) + bytes_enc(
        v.consensus_header,
    ))))))))))
}

/// A header view that an encoding can carry.
pub open spec fn header_view_wf(v: BlockHeaderView) -> bool {
    v.author.len() == 16 && v.consensus_header.len() <= u64::MAX
}

/// Reads a header at `p`.
pub open spec fn parse_header(s: Seq<u8>, p: int) -> Option<(BlockHeaderView, int)> {
    if 0 <= p && p + 208 <= s.len() {
        match parse_bytes(s, p + 208) {
            Some((c, q)) => Some(
                (
                    BlockHeaderView {
                        parent_hash: parse_hash(s, p).unwrap().0,
                        timestamp: u64_at(s, p + 32),
                        number: u64_at(s, p + 40),
                        author: s.subrange(p + 48, p + 64),
                        accumulator_root: parse_hash(s, p + 64).unwrap().0,
                        state_root: parse_hash(s, p + 96).unwrap().0,
                        gas_used: u64_at(s, p + 128),
                        gas_limit: u64_at(s, p + 136),
                        difficult: parse_u256(s, p + 144).unwrap().0,
                        total_difficult: parse_u256(s, p + 176).unwrap().0,
                        consensus_header: c,
                    },
                    q,
                ),
            ),
            None => None,
        }
    } else {
        None
    }
}

/// A whole byte string read as one header, with nothing left over.
pub open spec fn header_decoded(s: Seq<u8>) -> Option<BlockHeaderView> {
    match parse_header(s, 0) {
        Some((v, q)) => if q == s.len() {
            Some(v)
        } else {
            None
        },
        None => None,
    }
}

pub proof fn lemma_parse_header(s: Seq<u8>, p: int, v: BlockHeaderView)
    requires
        header_view_wf(v),
        holds_at(s, p, header_enc(v)),
    ensures
        parse_header(s, p) == Some((v, p + header_enc(v).len())),
{
    let e0 = hash_bytes(v.parent_hash);
    let e1 = u64_be(v.timestamp);
    let e2 = u64_be(v.number);
    let e3 = v.author;
    let e4 = hash_bytes(v.accumulator_root);
    let e5 = hash_bytes(v.state_root);
    let e6 = u64_be(v.gas_used);
    let e7 = u64_be(v.gas_limit);
    let e8 = u256_bytes(v.difficult);
    let e9 = u256_bytes(v.total_difficult);
    let e10 = bytes_enc(v.consensus_header);
    let t9 = e9 + e10;
    let t8 = e8 + t9;
    let t7 = e7 + t8;
    let t6 = e6 + t7;
    let t5 = e5 + t6;
    let t4 = e4 + t5;
    let t3 = e3 + t4;
    let t2 = e2 + t3;
    let t1 = e1 + t2;
    lemma_holds_split(s, p, e0, t1);
    lemma_holds_split(s, p + 32, e1, t2);
    lemma_holds_split(s, p + 40, e2, t3);
    lemma_holds_split(s, p + 48, e3, t4);
    lemma_holds_split(s, p + 64, e4, t5);
    lemma_holds_split(s, p + 96, e5, t6);
    lemma_holds_split(s, p + 128, e6, t7);
    lemma_holds_split(s, p + 136, e7, t8);
    lemma_holds_split(s, p + 144, e8, t9);
    lemma_holds_split(s, p + 176, e9, e10);
    assert(s.subrange(p + 48, p + 64) == v.author);
    lemma_parse_hash(s, p, v.parent_hash);
    lemma_parse_u64(s, p + 32, v.timestamp);
    lemma_parse_u64(s, p + 40, v.number);
    lemma_parse_hash(s, p + 64, v.accumulator_root);
    lemma_parse_hash(s, p + 96, v.state_root);
    lemma_parse_u64(s, p + 128, v.gas_used);
    lemma_parse_u64(s, p + 136, v.gas_limit);
    lemma_parse_u256(s, p + 144, v.difficult);
    lemma_parse_u256(s, p + 176, v.total_difficult);
    lemma_parse_bytes(s, p + 208, v.consensus_header);
}

/// Whole-string form of the header round trip.
pub proof fn lemma_header_decoded(v: BlockHeaderView)
    requires
        header_view_wf(v),
    ensures
        header_decoded(header_enc(v)) == Some(v),
{
    let e = header_enc(v);
    assert(e.subrange(0, e.len() as int) =~= e);
    lemma_parse_header(e, 0, v);
}

/// Appends the sixteen bytes of an address.
fn write_address(out: &mut Vec<u8>, a: &AccountAddress)
    ensures
        final(out)@ == old(out)@ + a.0@,
{
    let ghost start = out@;
    let mut i: usize = 0;
    while i < 16
        invariant
            i <= 16,
            out@ == start + a.0@.subrange(0, i as int),
        decreases 16 - i,
    {
        out.push(a.0[i]);
        i += 1;
        assert(out@ =~= start + a.0@.subrange(0, i as int));
    }
    assert(a.0@.subrange(0, 16) =~= a.0@);
}

/// Reads the sixteen bytes of an address at `pos`.
fn read_address(data: &Vec<u8>, pos: usize) -> (r: AccountAddress)
    requires
        pos + 16 <= data@.len(),
    ensures
        r.0@ == data@.subrange(pos as int, pos + 16),
{
    let mut a = [0u8; 16];
    let mut i: usize = 0;
    while i < 16
        invariant
            i <= 16,
            pos + 16 <= data.len(),
            forall|j: int| 0 <= j < i ==> a@[j] == data@[pos + j],
        decreases 16 - i,
    {
        a[i] = data[pos + i];
        i += 1;
    }
    assert(a@ =~= data@.subrange(pos as int, pos + 16));
    AccountAddress(a)
}

impl BlockHeader {
    pub fn new(
        parent_hash: HashValue,
        timestamp: u64,
        number: BlockNumber,
        author: AccountAddress,
        accumulator_root: HashValue,
        state_root: HashValue,
        gas_used: u64,
        gas_limit: u64,
        difficult: U256,
        total_difficult: U256,
        consensus_header: Vec<u8>,
    ) -> (r: BlockHeader)
        ensures
            r.parent_hash == parent_hash,
            r.timestamp == timestamp,
            r.number == number,
            r.author == author,
            r.accumulator_root == accumulator_root,
            r.state_root == state_root,
            r.gas_used == gas_used,
            r.gas_limit == gas_limit,
            r.difficult == difficult,
            r.total_difficult == total_difficult,
            r.consensus_header@ == consensus_header@,
    {
        BlockHeader {
            parent_hash,
            timestamp,
            number,
            author,
            accumulator_root,
            state_root,
            gas_used,
            gas_limit,
            difficult,
            total_difficult,
            consensus_header,
        }
    }

    /// A copy with the same contents.
    pub fn duplicate(&self) -> (r: BlockHeader)
        ensures
            r@ == self@,
            r.parent_hash == self.parent_hash,
            r.number == self.number,
            r.total_difficult == self.total_difficult,
    {
        let consensus_header = self.consensus_header.clone();
        assert(consensus_header@ =~= self.consensus_header@);
        BlockHeader { consensus_header, ..*self }
    }

    /// The header's encoding.
    pub fn encode(&self) -> (r: Vec<u8>)
        ensures
            r@ == header_enc(self@),
    {
        let mut out: Vec<u8> = Vec::new();
        write_hash(&mut out, &self.parent_hash);
        write_u64(&mut out, self.timestamp);
        write_u64(&mut out, self.number);
        write_address(&mut out, &self.author);
        write_hash(&mut out, &self.accumulator_root);
        write_hash(&mut out, &self.state_root);
        write_u64(&mut out, self.gas_used);
        write_u64(&mut out, self.gas_limit);
        write_u256(&mut out, &self.difficult);
        write_u256(&mut out, &self.total_difficult);
        write_bytes(&mut out, &self.consensus_header);
        assert(out@ =~= header_enc(self@));
        out
    }

    /// Reads a header at `pos`, returning it and where it ends.
    pub fn decode_at(data: &Vec<u8>, pos: usize) -> (r: Option<(BlockHeader, usize)>)
        ensures
            match r {
                Some((h, q)) => parse_header(data@, pos as int) == Some((h@, q as int)),
                None => parse_header(data@, pos as int) is None,
            },
    {
        if pos > data.len() || data.len() - pos < HEADER_FIXED_LENGTH {
            return None;
        }
        let (consensus_header, q) = match read_bytes(data, pos + 208) {
            Some(x) => x,
            None => {
                return None;
            },
        };
        let (parent_hash, _) = read_hash(data, pos).unwrap();
        let (timestamp, _) = read_u64(data, pos + 32).unwrap();
        let (number, _) = read_u64(data, pos + 40).unwrap();
        let author = read_address(data, pos + 48);
        let (accumulator_root, _) = read_hash(data, pos + 64).unwrap();
        let (state_root, _) = read_hash(data, pos + 96).unwrap();
        let (gas_used, _) = read_u64(data, pos + 128).unwrap();
        let (gas_limit, _) = read_u64(data, pos + 136).unwrap();
        let (difficult, _) = read_u256(data, pos + 144).unwrap();
        let (total_difficult, _) = read_u256(data, pos + 176).unwrap();
        let h = BlockHeader {
            parent_hash,
            timestamp,
            number,
            author,
            accumulator_root,
            state_root,
            gas_used,
            gas_limit,
            difficult,
            total_difficult,
            consensus_header,
        };
        Some((h, q))
    }

    /// Reads a header that fills all of `data`.
    pub fn decode(data: &Vec<u8>) -> (r: Result<BlockHeader, DecodeError>)
        ensures
            r is Ok <==> header_decoded(data@) is Some,
            r is Ok ==> r->Ok_0@ == header_decoded(data@)->0,
            r == Err::<BlockHeader, DecodeError>(DecodeError::Truncated) <==> parse_header(data@, 0) is None,
    {
        match Self::decode_at(data, 0) {
            Some((h, q)) => if q == data.len() {
                Ok(h)
            } else {
                Err(DecodeError::TrailingBytes)
            },
            None => Err(DecodeError::Truncated),
        }
    }

    /// The header's identity: the SHA3-256 digest of its encoding.
    pub fn id(&self) -> (r: HashValue)
        ensures
            r == header_id(self@),
    {
        let e = self.encode();
        let r = HashValue::from_sha3_256(&e);
        proof {
            lemma_id_of_digest(self@, r);
        }
        r
    }

    pub fn parent_hash(&self) -> (r: HashValue)
        ensures
            r == self.parent_hash,
    {
        self.parent_hash
    }

    pub fn timestamp(&self) -> (r: u64)
        ensures
            r == self.timestamp,
    {
        self.timestamp
    }

    pub fn number(&self) -> (r: BlockNumber)
        ensures
            r == self.number,
    {
        self.number
    }

    pub fn author(&self) -> (r: AccountAddress)
        ensures
            r == self.author,
    {
        self.author
    }

    pub fn accumulator_root(&self) -> (r: HashValue)
        ensures
            r == self.accumulator_root,
    {
        self.accumulator_root
    }

    pub fn state_root(&self) -> (r: HashValue)
        ensures
            r == self.state_root,
    {
        self.state_root
    }

    pub fn gas_used(&self) -> (r: u64)
        ensures
            r == self.gas_used,
    {
        self.gas_used
    }

    pub fn gas_limit(&self) -> (r: u64)
        ensures
            r == self.gas_limit,
    {
        self.gas_limit
    }

    pub fn consensus_header(&self) -> (r: &Vec<u8>)
        ensures
            r@ == self.consensus_header@,
    {
        &self.consensus_header
    }

    pub fn total_difficult(&self) -> (r: U256)
        ensures
            r == self.total_difficult,
    {
        self.total_difficult
    }

    pub fn difficult(&self) -> (r: U256)
        ensures
            r == self.difficult,
    {
        self.difficult
    }

    /// The genesis header: zero parent, number and timestamp zero, the default author, no gas,
    /// no difficulty.
    pub fn genesis_block_header(
        accumulator_root: HashValue,
        state_root: HashValue,
        consensus_header: Vec<u8>,
    ) -> (r: BlockHeader)
        ensures
            r.parent_hash == HashValue::spec_zero(),
            r.timestamp == 0,
            r.number == 0,
            r.author.0@ == Seq::new(16, |i: int| 0u8),
            r.accumulator_root == accumulator_root,
            r.state_root == state_root,
            r.gas_used == 0,
            r.gas_limit == 0,
            r.difficult.value() == 0,
            r.total_difficult.value() == 0,
            r.consensus_header@ == consensus_header@,
    {
        BlockHeader {
            parent_hash: HashValue::zero(),
            timestamp: 0,
            number: 0,
            author: AccountAddress::default_address(),
            accumulator_root,
            state_root,
            gas_used: 0,
            gas_limit: 0,
            difficult: U256::zero(),
            total_difficult: U256::zero(),
            consensus_header,
        }
    }

    /// A genesis header for tests: zero hashes, a random author, the largest gas limit.
    pub fn genesis_block_header_for_test() -> (r: BlockHeader)
        ensures
            r.parent_hash == HashValue::spec_zero(),
            r.number == 0,
            r.timestamp == 0,
            r.accumulator_root == HashValue::spec_zero(),
            r.state_root == HashValue::spec_zero(),
            r.gas_used == 0,
            r.gas_limit == u64::MAX,
            r.total_difficult.value() == 0,
            r.consensus_header@ == hash_bytes(HashValue::spec_zero()),
    {
        let zero = HashValue::zero();
        BlockHeader {
            parent_hash: zero,
            timestamp: 0,
            number: 0,
            author: AccountAddress::random(),
            accumulator_root: zero,
            state_root: zero,
            gas_used: 0,
            gas_limit: u64::MAX,
            difficult: U256::zero(),
            total_difficult: U256::zero(),
            consensus_header: zero.to_vec(),
        }
    }

    /// A child header for tests, with random roots and author.
    pub fn new_block_header_for_test(parent_hash: HashValue, parent_number: BlockNumber) -> (r:
        BlockHeader)
        requires
            parent_number < u64::MAX,
        ensures
            r.parent_hash == parent_hash,
            r.number == parent_number + 1,
            r.timestamp == 0,
            r.gas_used == 0,
            r.gas_limit == u64::MAX,
            r.total_difficult.value() == 0,
    {
        BlockHeader {
            parent_hash,
            timestamp: 0,
            number: parent_number + 1,
            author: AccountAddress::random(),
            accumulator_root: HashValue::random(),
            state_root: HashValue::random(),
            gas_used: 0,
            gas_limit: u64::MAX,
            difficult: U256::zero(),
            total_difficult: U256::zero(),
            consensus_header: HashValue::random().to_vec(),
        }
    }

    /// Orders headers by number, then timestamp, then by gas used with more gas first.
    /// Returns -1, 0 or 1.
    pub fn compare(&self, other: &BlockHeader) -> (r: i8)
        ensures
            r == header_order(self@, other@),
    {
        if self.number < other.number {
            -1
        } else if self.number > other.number {
            1
        } else if self.timestamp < other.timestamp {
            -1
        } else if self.timestamp > other.timestamp {
            1
        } else if self.gas_used > other.gas_used {
            -1
        } else if self.gas_used < other.gas_used {
            1
        } else {
            0
        }
    }
}

/// The identity of a header: the SHA3-256 digest of its encoding.
pub open spec fn header_id(v: BlockHeaderView) -> HashValue {
    choose|h: HashValue| hash_bytes(h) == sha3_256_of(header_enc(v))
}

/// A hash whose bytes are the digest of the encoding is the header's identity.
pub proof fn lemma_id_of_digest(v: BlockHeaderView, r: HashValue)
    requires
        hash_bytes(r) == sha3_256_of(header_enc(v)),
    ensures
        r == header_id(v),
{
    let h = header_id(v);
    assert(hash_bytes(h) == sha3_256_of(header_enc(v)));
    lemma_hash_bytes_injective(r, h);
}

/// The order of headers by (number, timestamp, gas used reversed), as -1, 0 or 1.
pub open spec fn header_order(a: BlockHeaderView, b: BlockHeaderView) -> i8 {
    if a.number != b.number {
        if a.number < b.number {
            -1i8
        } else {
            1i8
        }
    } else if a.timestamp != b.timestamp {
        if a.timestamp < b.timestamp {
            -1i8
        } else {
            1i8
        }
    } else if a.gas_used != b.gas_used {
        if a.gas_used > b.gas_used {
            -1i8
        } else {
            1i8
        }
    } else {
        0i8
    }
}

/// The encoding of a list of transactions, one after another, each with its length.
pub open spec fn txns_enc(ts: Seq<Seq<u8>>) -> Seq<u8>
    decreases ts.len(),
{
    if ts.len() == 0 {
        Seq::empty()
    } else {
        bytes_enc(ts[0]) + txns_enc(ts.drop_first())
    }
}

/// Reads `n` transactions at `p`.
pub open spec fn parse_txns(s: Seq<u8>, p: int, n: nat) -> Option<(Seq<Seq<u8>>, int)>
    decreases n,
{
    if n == 0 {
        Some((Seq::empty(), p))
    } else {
        match parse_bytes(s, p) {
            Some((b, q)) => match parse_txns(s, q, (n - 1) as nat) {
                Some((rest, e)) => Some((seq![b] + rest, e)),
                None => None,
            },
            None => None,
        }
    }
}

/// The encoding of a body: the number of transactions, then the transactions.
pub open spec fn body_enc(ts: Seq<Seq<u8>>) -> Seq<u8> {
    u64_be(ts.len() as u64) + txns_enc(ts)
}

/// Reads a body at `p`.
pub open spec fn parse_body(s: Seq<u8>, p: int) -> Option<(Seq<Seq<u8>>, int)> {
    match parse_u64(s, p) {
        Some((n, q)) => parse_txns(s, q, n as nat),
        None => None,
    }
}

/// A body view that an encoding can carry.
pub open spec fn body_view_wf(ts: Seq<Seq<u8>>) -> bool {
    ts.len() <= u64::MAX && forall|i: int| 0 <= i < ts.len() ==> #[trigger] ts[i].len() <= u64::MAX
}

/// A whole byte string read as one body, with nothing left over.
pub open spec fn body_decoded(s: Seq<u8>) -> Option<Seq<Seq<u8>>> {
    match parse_body(s, 0) {
        Some((v, q)) => if q == s.len() {
            Some(v)
        } else {
            None
        },
        None => None,
    }
}

pub proof fn lemma_txns_enc_push(ts: Seq<Seq<u8>>, t: Seq<u8>)
    ensures
        txns_enc(ts.push(t)) == txns_enc(ts) + bytes_enc(t),
    decreases ts.len(),
{
    if ts.len() == 0 {
        assert(ts.push(t).drop_first() =~= Seq::<Seq<u8>>::empty());
        assert(ts.push(t)[0] == t);
        assert(txns_enc(Seq::<Seq<u8>>::empty()) == Seq::<u8>::empty());
        assert(txns_enc(ts.push(t)) == bytes_enc(t) + Seq::<u8>::empty());
        assert(txns_enc(ts.push(t)) =~= txns_enc(ts) + bytes_enc(t));
    } else {
        assert(ts.push(t).drop_first() =~= ts.drop_first().push(t));
        lemma_txns_enc_push(ts.drop_first(), t);
        assert(ts.push(t)[0] == ts[0]);
        assert(txns_enc(ts.push(t)) == bytes_enc(ts[0]) + txns_enc(ts.drop_first().push(t)));
        assert(txns_enc(ts) == bytes_enc(ts[0]) + txns_enc(ts.drop_first()));
        assert(txns_enc(ts.push(t)) =~= txns_enc(ts) + bytes_enc(t));
    }
}

pub proof fn lemma_parse_txns(s: Seq<u8>, p: int, ts: Seq<Seq<u8>>)
    requires
        forall|i: int| 0 <= i < ts.len() ==> #[trigger] ts[i].len() <= u64::MAX,
        holds_at(s, p, txns_enc(ts)),
    ensures
        parse_txns(s, p, ts.len()) == Some((ts, p + txns_enc(ts).len())),
    decreases ts.len(),
{
    if ts.len() == 0 {
        assert(ts =~= Seq::<Seq<u8>>::empty());
    } else {
        let rest = ts.drop_first();
        lemma_holds_split(s, p, bytes_enc(ts[0]), txns_enc(rest));
        lemma_parse_bytes(s, p, ts[0]);
        assert(forall|i: int| 0 <= i < rest.len() ==> #[trigger] rest[i] == ts[i + 1]);
        lemma_parse_txns(s, p + bytes_enc(ts[0]).len(), rest);
        assert(seq![ts[0]] + rest =~= ts);
    }
}

pub proof fn lemma_parse_body(s: Seq<u8>, p: int, ts: Seq<Seq<u8>>)
    requires
        body_view_wf(ts),
        holds_at(s, p, body_enc(ts)),
    ensures
        parse_body(s, p) == Some((ts, p + body_enc(ts).len())),
{
    lemma_holds_split(s, p, u64_be(ts.len() as u64), txns_enc(ts));
    lemma_parse_u64(s, p, ts.len() as u64);
    lemma_parse_txns(s, p + 8, ts);
}

/// The transactions of a block.
#[derive(Debug, Clone, PartialEq, Eq, Hash, Default)]
pub struct BlockBody {
    pub transactions: Vec<SignedUserTransaction>,
}

impl View for BlockBody {
    type V = Seq<Seq<u8>>;

    open spec fn view(&self) -> Seq<Seq<u8>> {
        self.transactions@.map_values(|t: SignedUserTransaction| t@)
    }
}

impl BlockBody {
    pub fn new(transactions: Vec<SignedUserTransaction>) -> (r: BlockBody)
        ensures
            r.transactions@ == transactions@,
    {
        BlockBody { transactions }
    }

    /// The body with no transactions.
    pub fn empty() -> (r: BlockBody)
        ensures
            r@.len() == 0,
    {
        BlockBody { transactions: Vec::new() }
    }

    /// A copy with the same transactions.
    pub fn duplicate(&self) -> (r: BlockBody)
        ensures
            r@ == self@,
    {
        let mut transactions: Vec<SignedUserTransaction> = Vec::new();
        let mut i: usize = 0;
        while i < self.transactions.len()
            invariant
                i <= self.transactions@.len(),
                transactions@.map_values(|t: SignedUserTransaction| t@) == self@.subrange(
                    0,
                    i as int,
                ),
            decreases self.transactions@.len() - i,
        {
            let t = self.transactions[i].duplicate();
            let ghost prev = transactions@;
            transactions.push(t);
            proof {
                assert(transactions@ == prev.push(t));
                assert(transactions@.map_values(|t: SignedUserTransaction| t@) =~= prev.map_values(
                    |t: SignedUserTransaction| t@,
                ).push(t@));
                assert(self@.subrange(0, i + 1) =~= self@.subrange(0, i as int).push(self@[i as int]));
            }
            i += 1;
            assert(transactions@.map_values(|t: SignedUserTransaction| t@) =~= self@.subrange(
                0,
                i as int,
            ));
        }
        let r = BlockBody { transactions };
        assert(r@ =~= self@);
        r
    }

    /// The body's encoding.
    pub fn encode(&self) -> (r: Vec<u8>)
        ensures
            r@ == body_enc(self@),
    {
        let mut out: Vec<u8> = Vec::new();
        self.encode_into(&mut out);
        assert(out@ =~= body_enc(self@));
        out
    }

    /// Appends the body's encoding.
    pub fn encode_into(&self, out: &mut Vec<u8>)
        ensures
            final(out)@ == old(out)@ + body_enc(self@),
    {
        let n = self.transactions.len();
        write_u64(out, n as u64);
        let ghost start = out@;
        let mut i: usize = 0;
        while i < n
            invariant
                n == self.transactions@.len(),
                i <= n,
                out@ == start + txns_enc(self@.subrange(0, i as int)),
            decreases n - i,
        {
            write_bytes(out, &self.transactions[i].raw);
            proof {
                lemma_txns_enc_push(self@.subrange(0, i as int), self@[i as int]);
                assert(self@.subrange(0, i as int).push(self@[i as int]) =~= self@.subrange(
                    0,
                    i + 1,
                ));
            }
            i += 1;
        }
        assert(self@.subrange(0, n as int) =~= self@);
        assert(final(out)@ =~= old(out)@ + body_enc(self@));
    }

    /// Reads a body at `pos`, returning it and where it ends.
    pub fn decode_at(data: &Vec<u8>, pos: usize) -> (r: Option<(BlockBody, usize)>)
        ensures
            match r {
                Some((b, q)) => parse_body(data@, pos as int) == Some((b@, q as int)),
                None => parse_body(data@, pos as int) is None,
            },
    {
        let (n, mut q) = match read_u64(data, pos) {
            Some(x) => x,
            None => {
                return None;
            },
        };
        let ghost q0 = q as int;
        let mut transactions: Vec<SignedUserTransaction> = Vec::new();
        let mut i: u64 = 0;
        while i < n
            invariant
                i <= n,
                parse_body(data@, pos as int) == parse_txns(data@, q0, n as nat),
                parse_txns(data@, q0, n as nat) == match parse_txns(
                    data@,
                    q as int,
                    (n - i) as nat,
                ) {
                    Some((rest, e)) => Some(
                        (transactions@.map_values(|t: SignedUserTransaction| t@) + rest, e),
                    ),
                    None => None::<(Seq<Seq<u8>>, int)>,
                },
            decreases n - i,
        {
            let ghost before = transactions@.map_values(|t: SignedUserTransaction| t@);
            match read_bytes(data, q) {
                Some((b, q2)) => {
                    transactions.push(SignedUserTransaction { raw: b });
                    proof {
                        let ghost after = transactions@.map_values(|t: SignedUserTransaction| t@);
                        assert(after =~= before.push(b@));
                        match parse_txns(data@, q2 as int, (n - i - 1) as nat) {
                            Some((rest, e)) => {
                                assert(before + (seq![b@] + rest) =~= after + rest);
                            },
                            None => {},
                        }
                    }
                    q = q2;
                },
                None => {
                    return None;
                },
            }
            i += 1;
        }
        let body = BlockBody { transactions };
        proof {
            assert(body@ + Seq::<Seq<u8>>::empty() =~= body@);
        }
        Some((body, q))
    }

    /// Reads a body that fills all of `data`.
    pub fn decode(data: &Vec<u8>) -> (r: Result<BlockBody, DecodeError>)
        ensures
            r is Ok <==> body_decoded(data@) is Some,
            r is Ok ==> r->Ok_0@ == body_decoded(data@)->0,
            r == Err::<BlockBody, DecodeError>(DecodeError::Truncated) <==> parse_body(data@, 0) is None,
    {
        match Self::decode_at(data, 0) {
            Some((b, q)) => if q == data.len() {
                Ok(b)
            } else {
                Err(DecodeError::TrailingBytes)
            },
            None => Err(DecodeError::Truncated),
        }
    }
}

/// A block: a header and a body.
#[derive(Debug, Clone, PartialEq, Eq, Hash)]
pub struct Block {
    pub header: BlockHeader,
    pub body: BlockBody,
}

/// What a block holds, as values.
pub struct BlockView {
    pub header: BlockHeaderView,
    pub body: Seq<Seq<u8>>,
}

impl View for Block {
    type V = BlockView;

    open spec fn view(&self) -> BlockView {
        BlockView { header: self.header@, body: self.body@ }
    }
}

/// The encoding of a block: its header, then its body.
pub open spec fn block_enc(v: BlockView) -> Seq<u8> {
    header_enc(v.header) + body_enc(v.body)
}

/// Reads a block at `p`.
pub open spec fn parse_block(s: Seq<u8>, p: int) -> Option<(BlockView, int)> {
    match parse_header(s, p) {
        Some((h, q)) => match parse_body(s, q) {
            Some((b, e)) => Some((BlockView { header: h, body: b }, e)),
            None => None,
        },
        None => None,
    }
}

/// A whole byte string read as one block, with nothing left over.
pub open spec fn block_decoded(s: Seq<u8>) -> Option<BlockView> {
    match parse_block(s, 0) {
        Some((v, q)) => if q == s.len() {
            Some(v)
        } else {
            None
        },
        None => None,
    }
}

impl Block {
    pub fn new(header: BlockHeader, body: BlockBody) -> (r: Block)
        ensures
            r.header == header,
            r.body == body,
    {
        Block { header, body }
    }

    pub fn header(&self) -> (r: &BlockHeader)
        ensures
            r == &self.header,
    {
        &self.header
    }

    pub fn transactions(&self) -> (r: &Vec<SignedUserTransaction>)
        ensures
            r@ == self.body.transactions@,
    {
        &self.body.transactions
    }

    pub fn into_inner(self) -> (r: (BlockHeader, BlockBody))
        ensures
            r.0 == self.header,
            r.1 == self.body,
    {
        (self.header, self.body)
    }

    /// A block with the given header and no transactions.
    pub fn new_nil_block_for_test(header: BlockHeader) -> (r: Block)
        ensures
            r.header == header,
            r.body@.len() == 0,
    {
        Block { header, body: BlockBody::empty() }
    }

    /// The genesis block: the genesis header and no transactions.
    pub fn genesis_block(
        accumulator_root: HashValue,
        state_root: HashValue,
        consensus_header: Vec<u8>,
    ) -> (r: Block)
        ensures
            r.header.parent_hash == HashValue::spec_zero(),
            r.header.number == 0,
            r.header.accumulator_root == accumulator_root,
            r.header.state_root == state_root,
            r.header.consensus_header@ == consensus_header@,
            r.header.total_difficult.value() == 0,
            r.body@.len() == 0,
    {
        let header = BlockHeader::genesis_block_header(accumulator_root, state_root, consensus_header);
        Block { header, body: BlockBody::empty() }
    }

    /// The block's encoding.
    pub fn encode(&self) -> (r: Vec<u8>)
        ensures
            r@ == block_enc(self@),
    {
        let mut out = self.header.encode();
        self.body.encode_into(&mut out);
        out
    }

    /// The block's identity: the SHA3-256 digest of its encoding, header and body together.
    pub fn id(&self) -> (r: HashValue)
        ensures
            hash_bytes(r) == sha3_256_of(block_enc(self@)),
    {
        let e = self.encode();
        HashValue::from_sha3_256(&e)
    }

    /// Reads a block that fills all of `data`.
    pub fn decode(data: &Vec<u8>) -> (r: Result<Block, DecodeError>)
        ensures
            r is Ok <==> block_decoded(data@) is Some,
            r is Ok ==> r->Ok_0@ == block_decoded(data@)->0,
            r == Err::<Block, DecodeError>(DecodeError::Truncated) <==> parse_block(data@, 0) is None,
    {
        let (header, q) = match BlockHeader::decode_at(data, 0) {
            Some(x) => x,
            None => {
                return Err(DecodeError::Truncated);
            },
        };
        let (body, e) = match BlockBody::decode_at(data, q) {
            Some(x) => x,
            None => {
                return Err(DecodeError::Truncated);
            },
        };
        if e != data.len() {
            return Err(DecodeError::TrailingBytes);
        }
        Ok(Block { header, body })
    }
}

/// The ids of the headers, in order.
pub fn header_ids(headers: &Vec<BlockHeader>) -> (r: Vec<HashValue>)
    ensures
        r@.len() == headers@.len(),
        forall|i: int| 0 <= i < headers@.len() ==> r@[i] == header_id(#[trigger] headers@[i]@),
{
    let mut r: Vec<HashValue> = Vec::new();
    let mut i: usize = 0;
    while i < headers.len()
        invariant
            i <= headers@.len(),
            r@.len() == i,
            forall|j: int| 0 <= j < i ==> r@[j] == header_id(#[trigger] headers@[j]@),
        decreases headers@.len() - i,
    {
        r.push(headers[i].id());
        i += 1;
    }
    r
}

/// Every header's view can be encoded.
pub proof fn lemma_header_wf(h: &BlockHeader)
    ensures
        header_view_wf(h@),
{
    assert(h.consensus_header@.len() == h.consensus_header.len());
}

/// Every body's view can be encoded.
pub proof fn lemma_body_wf(b: &BlockBody)
    ensures
        body_view_wf(b@),
{
    assert(b@.len() == b.transactions.len());
    assert forall|i: int| 0 <= i < b@.len() implies #[trigger] b@[i].len() <= u64::MAX by {
        assert(b@[i] == b.transactions@[i].raw@);
        assert(b.transactions@[i].raw@.len() == b.transactions@[i].raw.len());
    }
}

/// Decoding the encoding of a header gives back the header.
pub proof fn law_header_round_trip(h: &BlockHeader)
    ensures
        header_decoded(header_enc(h@)) == Some(h@),
{
    lemma_header_wf(h);
    lemma_header_decoded(h@);
}

/// Decoding the encoding of a body gives back the body.
pub proof fn law_body_round_trip(b: &BlockBody)
    ensures
        body_decoded(body_enc(b@)) == Some(b@),
{
    lemma_body_wf(b);
    let e = body_enc(b@);
    assert(e.subrange(0, e.len() as int) =~= e);
    lemma_parse_body(e, 0, b@);
}

/// Decoding the encoding of a block gives back the block.
#[verifier::rlimit(40)]
pub proof fn law_block_round_trip(b: &Block)
    ensures
        block_decoded(block_enc(b@)) == Some(b@),
{
    lemma_header_wf(&b.header);
    lemma_body_wf(&b.body);
    let e = block_enc(b@);
    assert(e.subrange(0, e.len() as int) =~= e);
    lemma_holds_split(e, 0, header_enc(b.header@), body_enc(b.body@));
    lemma_parse_header(e, 0, b.header@);
    lemma_parse_body(e, header_enc(b.header@).len() as int, b.body@);
}

/// The encoding of a block info: block id, the frozen roots with their count, leaves, nodes.
pub open spec fn block_info_enc(id: HashValue, roots: Seq<HashValue>, num_leaves: u64, num_nodes: u64) -> Seq<u8> {
    hash_bytes(id) + u64_be(roots.len() as u64) + hashes_enc(roots) + u64_be(num_leaves) + u64_be(
        num_nodes,
    )
}

/// Reads a whole byte string as a block info: (block id, frozen roots, leaves, nodes).
pub open spec fn block_info_decoded(s: Seq<u8>) -> Option<(HashValue, Seq<HashValue>, u64, u64)> {
    if s.len() >= 56 && s.len() == 56 + 32 * (u64_at(s, 32) as int) {
        let n = u64_at(s, 32) as int;
        Some(
            (
                parse_hash(s, 0).unwrap().0,
                Seq::new(n as nat, |i: int| parse_hash(s, 40 + 32 * i).unwrap().0),
                u64_at(s, 40 + 32 * n),
                u64_at(s, 48 + 32 * n),
            ),
        )
    } else {
        None
    }
}

/// Decoding the encoding of a block info gives back its parts.
pub proof fn law_block_info_round_trip(
    id: HashValue,
    roots: Seq<HashValue>,
    num_leaves: u64,
    num_nodes: u64,
)
    requires
        roots.len() <= u64::MAX,
    ensures
        block_info_decoded(block_info_enc(id, roots, num_leaves, num_nodes)) == Some(
            (id, roots, num_leaves, num_nodes),
        ),
{
    let n = roots.len() as int;
    let a = hash_bytes(id);
    let b = u64_be(roots.len() as u64);
    let c = hashes_enc(roots);
    let d = u64_be(num_leaves);
    let e = u64_be(num_nodes);
    let s = block_info_enc(id, roots, num_leaves, num_nodes);
    lemma_hashes_enc_len(roots);
    assert(s.subrange(0, s.len() as int) =~= s);
    lemma_holds_split(s, 0, a + b + c + d, e);
    lemma_holds_split(s, 0, a + b + c, d);
    lemma_holds_split(s, 0, a + b, c);
    lemma_holds_split(s, 0, a, b);
    lemma_parse_hash(s, 0, id);
    lemma_parse_u64(s, 32, roots.len() as u64);
    lemma_parse_u64(s, 40 + 32 * n, num_leaves);
    lemma_parse_u64(s, 48 + 32 * n, num_nodes);
    let got = Seq::new(n as nat, |i: int| parse_hash(s, 40 + 32 * i).unwrap().0);
    assert forall|i: int| 0 <= i < n implies got[i] == roots[i] by {
        lemma_hashes_enc_at(roots, i);
        lemma_holds_within(s, 40, c, 32 * i, hash_bytes(roots[i]));
        lemma_parse_hash(s, 40 + 32 * i, roots[i]);
    }
    assert(got =~= roots);
}

/// A block's accumulator snapshot: frozen subtree roots, leaf count and node count.
#[derive(Debug, Clone, PartialEq, Eq, Hash)]
pub struct BlockInfo {
    pub block_id: HashValue,
    pub frozen_subtree_roots: Vec<HashValue>,
    pub num_leaves: u64,
    pub num_nodes: u64,
}

impl BlockInfo {
    pub fn new(
        block_id: HashValue,
        frozen_subtree_roots: Vec<HashValue>,
        num_leaves: u64,
        num_nodes: u64,
    ) -> (r: BlockInfo)
        ensures
            r.block_id == block_id,
            r.frozen_subtree_roots@ == frozen_subtree_roots@,
            r.num_leaves == num_leaves,
            r.num_nodes == num_nodes,
    {
        BlockInfo { block_id, frozen_subtree_roots, num_leaves, num_nodes }
    }

    pub fn into_inner(self) -> (r: (HashValue, Vec<HashValue>, u64, u64))
        ensures
            r.0 == self.block_id,
            r.1@ == self.frozen_subtree_roots@,
            r.2 == self.num_leaves,
            r.3 == self.num_nodes,
    {
        (self.block_id, self.frozen_subtree_roots, self.num_leaves, self.num_nodes)
    }

    /// The info's encoding.
    pub fn encode(&self) -> (r: Vec<u8>)
        ensures
            r@ == block_info_enc(
                self.block_id,
                self.frozen_subtree_roots@,
                self.num_leaves,
                self.num_nodes,
            ),
    {
        let mut out: Vec<u8> = Vec::new();
        write_hash(&mut out, &self.block_id);
        write_u64(&mut out, self.frozen_subtree_roots.len() as u64);
        let ghost start = out@;
        let mut i: usize = 0;
        while i < self.frozen_subtree_roots.len()
            invariant
                i <= self.frozen_subtree_roots@.len(),
                out@ == start + hashes_enc(self.frozen_subtree_roots@.subrange(0, i as int)),
            decreases self.frozen_subtree_roots@.len() - i,
        {
            write_hash(&mut out, &self.frozen_subtree_roots[i]);
            proof {
                let t = self.frozen_subtree_roots@.subrange(0, i + 1);
                assert(t.drop_last() =~= self.frozen_subtree_roots@.subrange(0, i as int));
            }
            i += 1;
        }
        assert(self.frozen_subtree_roots@.subrange(0, self.frozen_subtree_roots@.len() as int)
            =~= self.frozen_subtree_roots@);
        write_u64(&mut out, self.num_leaves);
        write_u64(&mut out, self.num_nodes);
        out
    }

    /// Reads a block info that fills all of `data`.
    pub fn decode(data: &Vec<u8>) -> (r: Option<BlockInfo>)
        ensures
            r is Some <==> block_info_decoded(data@) is Some,
            r is Some ==> (r->0.block_id, r->0.frozen_subtree_roots@, r->0.num_leaves, r->0.num_nodes)
                == block_info_decoded(data@)->0,
    {
        if data.len() < 56 {
            return None;
        }
        let (block_id, _) = read_hash(data, 0).unwrap();
        let (n, _) = read_u64(data, 32).unwrap();
        let rest = data.len() - 56;
        if rest % 32 != 0 || (rest / 32) as u64 != n {
            proof {
                if data@.len() == 56 + 32 * (n as int) {
                    assert(rest == 32 * (n as int));
                    assert((32 * (n as int)) % 32 == 0 && (32 * (n as int)) / 32 == n as int)
                        by (nonlinear_arith);
                }
            }
            return None;
        }
        let count: usize = rest / 32;
        proof {
            assert(rest == 32 * (count as int)) by (nonlinear_arith)
                requires
                    rest % 32 == 0,
                    count == rest / 32,
            ;
        }
        let mut roots: Vec<HashValue> = Vec::new();
        let mut i: usize = 0;
        while i < count
            invariant
                i <= count,
                count == n,
                data.len() == 56 + 32 * count,
                roots@ == Seq::new(count as nat, |j: int| parse_hash(data@, 40 + 32 * j).unwrap().0).subrange(
                    0,
                    i as int,
                ),
            decreases count - i,
        {
            assert(40 + 32 * i + 32 <= data.len()) by (nonlinear_arith)
                requires
                    i < count,
                    data.len() == 56 + 32 * count,
            ;
            let (h, _) = read_hash(data, 40 + 32 * i).unwrap();
            roots.push(h);
            i += 1;
            assert(roots@ =~= Seq::new(count as nat, |j: int| parse_hash(data@, 40 + 32 * j).unwrap().0).subrange(
                0,
                i as int,
            ));
        }
        let (num_leaves, _) = read_u64(data, 40 + 32 * count).unwrap();
        let (num_nodes, _) = read_u64(data, 48 + 32 * count).unwrap();
        assert(roots@ =~= Seq::new(count as nat, |j: int| parse_hash(data@, 40 + 32 * j).unwrap().0));
        Some(BlockInfo { block_id, frozen_subtree_roots: roots, num_leaves, num_nodes })
    }

    /// The info's identity: the SHA3-256 digest of its encoding.
    pub fn id(&self) -> (r: HashValue)
        ensures
            hash_bytes(r) == sha3_256_of(
                block_info_enc(
                    self.block_id,
                    self.frozen_subtree_roots@,
                    self.num_leaves,
                    self.num_nodes,
                ),
            ),
    {
        let e = self.encode();
        HashValue::from_sha3_256(&e)
    }
}

/// The parts of a block that mining fills in before the consensus header is attached.
pub struct BlockTemplate {
    pub parent_hash: HashValue,
    pub timestamp: u64,
    pub number: BlockNumber,
    pub author: AccountAddress,
    pub accumulator_root: HashValue,
    pub state_root: HashValue,
    pub gas_used: u64,
    pub gas_limit: u64,
    pub difficult: U256,
    pub total_difficult: U256,
    pub body: BlockBody,
}

/// The header a template becomes with `consensus_header` attached.
pub open spec fn template_header(t: BlockTemplate, consensus_header: Seq<u8>) -> BlockHeaderView {
    BlockHeaderView {
        parent_hash: t.parent_hash,
        timestamp: t.timestamp,
        number: t.number,
        author: t.author.0@,
        accumulator_root: t.accumulator_root,
        state_root: t.state_root,
        gas_used: t.gas_used,
        gas_limit: t.gas_limit,
        difficult: t.difficult,
        total_difficult: t.total_difficult,
        consensus_header,
    }
}

impl BlockTemplate {
    pub fn new(
        parent_hash: HashValue,
        timestamp: u64,
        number: BlockNumber,
        author: AccountAddress,
        accumulator_root: HashValue,
        state_root: HashValue,
        gas_used: u64,
        gas_limit: u64,
        difficult: U256,
        total_difficult: U256,
        body: BlockBody,
    ) -> (r: BlockTemplate)
        ensures
            r == (BlockTemplate {
                parent_hash,
                timestamp,
                number,
                author,
                accumulator_root,
                state_root,
                gas_used,
                gas_limit,
                difficult,
                total_difficult,
                body,
            }),
    {
        BlockTemplate {
            parent_hash,
            timestamp,
            number,
            author,
            accumulator_root,
            state_root,
            gas_used,
            gas_limit,
            difficult,
            total_difficult,
            body,
        }
    }

    /// The block this template becomes with `consensus_header` attached.
    pub fn into_block(self, consensus_header: Vec<u8>) -> (r: Block)
        ensures
            r.header@ == template_header(self, consensus_header@),
            r.body == self.body,
    {
        let header = BlockHeader::new(
            self.parent_hash,
            self.timestamp,
            self.number,
            self.author,
            self.accumulator_root,
            self.state_root,
            self.gas_used,
            self.gas_limit,
            self.difficult,
            self.total_difficult,
            consensus_header,
        );
        Block { header, body: self.body }
    }

    /// The header this template becomes with `consensus_header` attached.
    pub fn into_block_header(self, consensus_header: Vec<u8>) -> (r: BlockHeader)
        ensures
            r@ == template_header(self, consensus_header@),
    {
        BlockHeader::new(
            self.parent_hash,
            self.timestamp,
            self.number,
            self.author,
            self.accumulator_root,
            self.state_root,
            self.gas_used,
            self.gas_limit,
            self.difficult,
            self.total_difficult,
            consensus_header,
        )
    }

    /// The template of a block: its header's fields and its body.
    pub fn from_block(block: Block) -> (r: BlockTemplate)
        ensures
            template_header(r, block.header.consensus_header@) == block.header@,
            r.body == block.body,
    {
        BlockTemplate {
            parent_hash: block.header.parent_hash,
            timestamp: block.header.timestamp,
            number: block.header.number,
            author: block.header.author,
            accumulator_root: block.header.accumulator_root,
            state_root: block.header.state_root,
            gas_used: block.header.gas_used,
            gas_limit: block.header.gas_limit,
            difficult: block.header.difficult,
            total_difficult: block.header.total_difficult,
            body: block.body,
        }
    }
}

} // verus!
