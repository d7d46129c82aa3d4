//! The inputs and outputs of replaying one block.

use crate::hardfork::{version_at, HardforkConfig};
use crate::layout::BlockView;
use crate::parse::Block;
use crate::primitives::B256;
use vstd::prelude::*;

verus! {

/// The proof-of-block input for one block: the state it starts from, the
/// block itself, and the roots that are claimed for it.
#[derive(Debug, Clone, PartialEq, Eq)]
pub struct Pob {
    /// The chain that the block belongs to.
    pub chain_id: u64,
    /// The block.
    pub block: Block,
    /// State root before the block.
    pub prev_state_root: B256,
    /// State root claimed after the block.
    pub state_root: B256,
    /// Withdrawal root claimed after the block.
    pub withdrawal_root: B256,
}

/// One block staged for replay. Each context owns its data; none shares
/// anything with another.
#[derive(Debug, Clone, PartialEq, Eq)]
pub struct PobContext {
    /// The input that the context wraps.
    pub pob: Pob,
    /// The batch version in force at the block.
    pub batch_version: u8,
}

impl PobContext {
    /// Stages `pob` under the hardfork table `hardfork`.
    pub fn new(pob: Pob, hardfork: &HardforkConfig) -> (r: PobContext)
        ensures
            r.pob == pob,
            r.batch_version == version_at(hardfork.forks@, pob.block.number, pob.block.timestamp),
    {
        let batch_version = hardfork.batch_version(pob.block.number, pob.block.timestamp);
        PobContext { pob, batch_version }
    }

    /// The chain that the block belongs to.
    pub fn chain_id(&self) -> (r: u64)
        ensures
            r == self.pob.chain_id,
    {
        self.pob.chain_id
    }

    /// The block's number.
    pub fn number(&self) -> (r: u64)
        ensures
            r == self.pob.block.number,
    {
        self.pob.block.number
    }

    /// The block's timestamp.
    pub fn timestamp(&self) -> (r: u64)
        ensures
            r == self.pob.block.timestamp,
    {
        self.pob.block.timestamp
    }

    /// State root before the block.
    pub fn prev_state_root(&self) -> (r: B256)
        ensures
            r == self.pob.prev_state_root,
    {
        self.pob.prev_state_root
    }

    /// State root claimed after the block.
    pub fn state_root(&self) -> (r: B256)
        ensures
            r == self.pob.state_root,
    {
        self.pob.state_root
    }

    /// Withdrawal root claimed after the block.
    pub fn withdrawal_root(&self) -> (r: B256)
        ensures
            r == self.pob.withdrawal_root,
    {
        self.pob.withdrawal_root
    }

    /// The batch version in force at the block.
    pub fn batch_version(&self) -> (r: u8)
        ensures
            r == self.batch_version,
    {
        self.batch_version
    }
}

/// The blocks of the contexts `s`, in order.
pub open spec fn context_blocks(s: Seq<PobContext>) -> Seq<BlockView> {
    Seq::new(s.len(), |i: int| s[i].pob.block@)
}

/// The batch versions of the contexts `s`, in order.
pub open spec fn context_versions(s: Seq<PobContext>) -> Seq<u8> {
    Seq::new(s.len(), |i: int| s[i].batch_version)
}

/// What replaying one block gave.
#[derive(Debug, Clone, Copy, PartialEq, Eq)]
pub struct ExecutionResult {
    /// State root after the block.
    pub new_state_root: B256,
    /// Withdrawal root after the block.
    pub new_withdrawal_root: B256,
}

/// A proof of execution: the state transition that a batch hash is bound to.
#[derive(Debug, Clone, Copy, PartialEq, Eq)]
pub struct Poe {
    /// The hash of the batch.
    pub batch_hash: B256,
    /// State root before the first block.
    pub prev_state_root: B256,
    /// State root after the last block.
    pub new_state_root: B256,
    /// Withdrawal root after the last block.
    pub withdrawal_root: B256,
}

impl Poe {
    /// The proof fragment of one block: its roots, bound to no batch yet.
    pub fn of_block(prev_state_root: B256, result: ExecutionResult) -> (r: Poe)
        ensures
            r.batch_hash@ == Seq::new(32, |i: int| 0u8),
            r.prev_state_root == prev_state_root,
            r.new_state_root == result.new_state_root,
            r.withdrawal_root == result.new_withdrawal_root,
    {
        Poe {
            batch_hash: B256::zero(),
            prev_state_root,
            new_state_root: result.new_state_root,
            withdrawal_root: result.new_withdrawal_root,
        }
    }

    /// One proof for the blocks whose fragments are `reports`, in this order:
    /// it starts where the first starts and ends where the last ends. There
    /// is none for no block.
    pub fn merge(batch_hash: B256, reports: &[Poe]) -> (r: Option<Poe>)
        ensures
            reports@.len() == 0 ==> r is None,
            reports@.len() > 0 ==> r == Some(
                Poe {
                    batch_hash,
                    prev_state_root: reports@[0].prev_state_root,
                    new_state_root: reports@[reports@.len() - 1].new_state_root,
                    withdrawal_root: reports@[reports@.len() - 1].withdrawal_root,
                },
            ),
    {
        let n = reports.len();
        if n == 0 {
            return None;
        }
        Some(
            Poe {
                batch_hash,
                prev_state_root: reports[0].prev_state_root,
                new_state_root: reports[n - 1].new_state_root,
                withdrawal_root: reports[n - 1].withdrawal_root,
            },
        )
    }
}

impl Default for Poe {
    fn default() -> (r: Poe)
        ensures
            r.batch_hash@ == Seq::new(32, |i: int| 0u8),
            r.prev_state_root@ == Seq::new(32, |i: int| 0u8),
            r.new_state_root@ == Seq::new(32, |i: int| 0u8),
            r.withdrawal_root@ == Seq::new(32, |i: int| 0u8),
    {
        Poe {
            batch_hash: B256::zero(),
            prev_state_root: B256::zero(),
            new_state_root: B256::zero(),
            withdrawal_root: B256::zero(),
        }
    }
}

} // verus!
