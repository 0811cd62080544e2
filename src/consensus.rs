use crate::block::BlockHeader;
use crate::u256::U256;
use rand::Rng;
use vstd::prelude::*;

verus! {

/// Relies on `rand::Rng::gen_range` on the thread's generator: a value in `[low, high)`; it
/// panics when `low >= high`, which `requires` rules out.
#[verifier::external_body]
fn random_in_range(low: u64, high: u64) -> (r: u64)
    requires
        low < high,
    ensures
        low <= r < high,
{
    rand::thread_rng().gen_range(low, high)
}

/// The consensus extension of the dummy consensus: it carries nothing.
#[derive(Debug, Clone, Copy, PartialEq, Eq, Structural)]
pub struct DummyHeader {}

impl DummyHeader {
    /// Any bytes read as the dummy header.
    pub fn from_bytes(_value: Vec<u8>) -> (r: DummyHeader)
        ensures
            r == (DummyHeader {}),
    {
        DummyHeader {}
    }

    /// The dummy header's bytes: none.
    pub fn to_bytes(self) -> (r: Vec<u8>)
        ensures
            r@.len() == 0,
    {
        Vec::new()
    }
}

/// A consensus for development: random difficulty, every header accepted.
#[derive(Debug, Clone, Copy, PartialEq, Eq, Structural)]
pub struct DummyConsensus {}

/// The exclusive upper bound of the dummy difficulty: a second when blocks are made on demand,
/// else the development period in milliseconds.
pub open spec fn dummy_difficulty_bound(dev_period: u64) -> int {
    if dev_period == 0 {
        1000
    } else {
        dev_period * 1000
    }
}

impl DummyConsensus {
    /// A random difficulty in `[1, bound)`, the bound from the development period in seconds.
    pub fn calculate_next_difficulty(dev_period: u64) -> (r: U256)
        requires
            dev_period <= u64::MAX / 1000,
        ensures
            1 <= r.value() < dummy_difficulty_bound(dev_period),
    {
        let high: u64 = if dev_period == 0 {
            1000
        } else {
            dev_period * 1000
        };
        let time = random_in_range(1, high);
        U256::from_u64(time)
    }

    /// The dummy consensus accepts every header.
    pub fn verify_header(_header: &BlockHeader) -> (r: Result<(), ()>)
        ensures
            r is Ok,
    {
        Ok(())
    }
}

} // verus!
