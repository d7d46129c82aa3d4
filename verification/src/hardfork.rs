//! The table that tells which batch version is in force at a block.
//!
//! A table is an ordered list of forks. A fork is active at a block whose
//! number and timestamp have both reached the fork's thresholds. The version in
//! force is that of the last active fork in the list, and version 0 where none
//! is active.

use vstd::prelude::*;

verus! {

/// One entry of the table.
#[derive(Clone, Copy, Debug, PartialEq, Eq)]
pub struct Hardfork {
    /// First block number at which the fork can be active.
    pub block: u64,
    /// First timestamp at which the fork can be active.
    pub time: u64,
    /// The batch version that the fork brings.
    pub version: u8,
}

impl Hardfork {
    /// Whether the fork is active at a block of this number and timestamp.
    pub open spec fn active(self, number: u64, time: u64) -> bool {
        number >= self.block && time >= self.time
    }
}

/// The version in force at (`number`, `time`) under the forks `forks`.
pub open spec fn version_at(forks: Seq<Hardfork>, number: u64, time: u64) -> u8
    decreases forks.len(),
{
    if forks.len() == 0 {
        0
    } else if forks.last().active(number, time) {
        forks.last().version
    } else {
        version_at(forks.drop_last(), number, time)
    }
}

/// A hardfork table.
#[derive(Clone, Debug, PartialEq, Eq)]
pub struct HardforkConfig {
    pub forks: Vec<Hardfork>,
}

impl HardforkConfig {
    /// The table made of `forks`, in this order.
    pub fn new(forks: Vec<Hardfork>) -> (r: Self)
        ensures
            r.forks@ == forks@,
    {
        HardforkConfig { forks }
    }

    /// The batch version in force at a block of this number and timestamp.
    pub fn batch_version(&self, number: u64, time: u64) -> (r: u8)
        ensures
            r == version_at(self.forks@, number, time),
    {
        let mut i: usize = self.forks.len();
        assert(self.forks@.take(i as int) =~= self.forks@);
        while i > 0
            invariant
                i <= self.forks@.len(),
                version_at(self.forks@, number, time) == version_at(
                    self.forks@.take(i as int),
                    number,
                    time,
                ),
            decreases i,
        {
            let f = self.forks[i - 1];
            assert(self.forks@.take(i as int).last() == f);
            assert(self.forks@.take(i as int).drop_last() =~= self.forks@.take(i - 1));
            if number >= f.block && time >= f.time {
                return f.version;
            }
            i -= 1;
        }
        assert(self.forks@.take(0).len() == 0);
        0
    }
}

} // verus!
