//! The rules that the blocks of a batch keep, and where a block stands.

use crate::commit::keccak256;
use crate::error::BatchError;
use crate::layout::{
    broken_rule, first_bad_nonce, first_gap, lemma_blocks_in_nonneg, next_nonce, payload, place,
    position, total_l1_txs, total_txs, well_laid, BatchView, BlockView, MAX_L1_TXS, MAX_TXS,
};
use crate::parse::{block_views, Block};
use vstd::bytes::u64_to_le_bytes;
use vstd::prelude::*;

verus! {

/// A well laid out batch holds at least one block.
pub proof fn lemma_well_laid_has_blocks(b: BatchView)
    requires
        well_laid(b),
    ensures
        b.blocks.len() >= 1,
{
    lemma_blocks_in_nonneg(b.sizes, 1);
    assert(b.sizes[0] >= 1);
}

/// The totals only grow with the blocks counted.
pub proof fn lemma_totals_grow(blocks: Seq<BlockView>, k: int, n: int)
    requires
        0 <= k <= n,
    ensures
        total_txs(blocks, k) <= total_txs(blocks, n),
        total_l1_txs(blocks, k) <= total_l1_txs(blocks, n),
    decreases n - k,
{
    if k < n {
        lemma_totals_grow(blocks, k, n - 1);
    }
}

/// Position of the first block whose number does not follow its predecessor's.
pub fn find_gap(blocks: &Vec<Block>) -> (r: Option<usize>)
    ensures
        r is Some <==> first_gap(block_views(blocks@), 1) is Some,
        r is Some ==> r->Some_0 == first_gap(block_views(blocks@), 1)->Some_0 && 1 <= r->Some_0
            < blocks@.len(),
{
    let ghost bv = block_views(blocks@);
    let mut k: usize = 1;
    while k < blocks.len()
        invariant
            1 <= k,
            bv == block_views(blocks@),
            first_gap(bv, 1) == first_gap(bv, k as int),
        decreases blocks@.len() - k,
    {
        let prev = blocks[k - 1].number;
        let cur = blocks[k].number;
        if prev == u64::MAX || cur != prev + 1 {
            return Some(k);
        }
        k += 1;
    }
    None
}

/// The nonce that the block after `b` must carry.
pub fn next_nonce_of(b: &Block) -> (r: u64)
    ensures
        r == next_nonce(b@),
{
    let n = b.num_l1_txs as u64;
    if b.l1_nonce > u64::MAX - n {
        u64::MAX
    } else {
        b.l1_nonce + n
    }
}

/// Position of the first block whose nonce is not the counter.
pub fn find_bad_nonce(blocks: &Vec<Block>) -> (r: Option<usize>)
    ensures
        r is Some <==> first_bad_nonce(block_views(blocks@), 1) is Some,
        r is Some ==> r->Some_0 == first_bad_nonce(block_views(blocks@), 1)->Some_0 && 1
            <= r->Some_0 < blocks@.len(),
{
    let ghost bv = block_views(blocks@);
    let mut k: usize = 1;
    while k < blocks.len()
        invariant
            1 <= k,
            bv == block_views(blocks@),
            first_bad_nonce(bv, 1) == first_bad_nonce(bv, k as int),
        decreases blocks@.len() - k,
    {
        if blocks[k].l1_nonce != next_nonce_of(&blocks[k - 1]) {
            return Some(k);
        }
        k += 1;
    }
    None
}

/// Whether the blocks hold more L1-originated transactions than allowed.
pub fn l1_txs_exceed(blocks: &Vec<Block>) -> (r: bool)
    ensures
        r == (total_l1_txs(block_views(blocks@), blocks@.len() as int) > MAX_L1_TXS),
{
    let ghost bv = block_views(blocks@);
    let mut acc: u64 = 0;
    let mut k: usize = 0;
    while k < blocks.len()
        invariant
            k <= blocks@.len(),
            bv == block_views(blocks@),
            acc == total_l1_txs(bv, k as int),
            acc <= MAX_L1_TXS,
        decreases blocks@.len() - k,
    {
        acc = acc + blocks[k].num_l1_txs as u64;
        k += 1;
        if acc > MAX_L1_TXS {
            proof {
                lemma_totals_grow(bv, k as int, blocks@.len() as int);
            }
            return true;
        }
    }
    false
}

/// Whether the blocks hold more transactions than allowed.
pub fn txs_exceed(blocks: &Vec<Block>) -> (r: bool)
    ensures
        r == (total_txs(block_views(blocks@), blocks@.len() as int) > MAX_TXS),
{
    let ghost bv = block_views(blocks@);
    let mut acc: u64 = 0;
    let mut k: usize = 0;
    while k < blocks.len()
        invariant
            k <= blocks@.len(),
            bv == block_views(blocks@),
            acc == total_txs(bv, k as int),
            acc <= MAX_TXS,
        decreases blocks@.len() - k,
    {
        acc = acc + blocks[k].num_txs as u64;
        k += 1;
        if acc > MAX_TXS {
            proof {
                lemma_totals_grow(bv, k as int, blocks@.len() as int);
            }
            return true;
        }
    }
    false
}

/// The (chunk, block in chunk) position of the block at flat position `k`.
pub fn locate(sizes: &Vec<u8>, k: u64) -> (r: (usize, usize))
    ensures
        r == place(sizes@, k as int),
{
    let mut c: usize = 0;
    let mut rem: u64 = k;
    while c < sizes.len() && rem >= sizes[c] as u64
        invariant
            c <= sizes@.len(),
            rem <= k,
            position(sizes@, 0, k as int) == position(sizes@, c as int, rem as int),
        decreases sizes@.len() - c,
    {
        rem = rem - sizes[c] as u64;
        c += 1;
    }
    if rem > usize::MAX as u64 {
        (c, usize::MAX)
    } else {
        (c, rem as usize)
    }
}

/// The transaction bytes of all blocks, one block after the other.
pub fn payload_of(blocks: &Vec<Block>) -> (r: Vec<u8>)
    ensures
        r@ == payload(block_views(blocks@), 0),
{
    let ghost bv = block_views(blocks@);
    let mut out: Vec<u8> = Vec::new();
    let mut k: usize = 0;
    assert(out@ + payload(bv, 0) =~= payload(bv, 0));
    while k < blocks.len()
        invariant
            k <= blocks@.len(),
            bv == block_views(blocks@),
            out@ + payload(bv, k as int) == payload(bv, 0),
        decreases blocks@.len() - k,
    {
        let ghost before = out@;
        out.extend_from_slice(blocks[k].txs.as_slice());
        assert((before + bv[k as int].txs) + payload(bv, k + 1) =~= before + (bv[k as int].txs
            + payload(bv, k + 1)));
        k += 1;
    }
    assert(out@ + payload(bv, k as int) =~= out@);
    out
}

/// The first rule that the blocks break, as an error.
pub fn check_rules(id: u64, sizes: &Vec<u8>, blocks: &Vec<Block>) -> (r: Result<(), BatchError>)
    ensures
        match broken_rule(id, sizes@, block_views(blocks@)) {
            None => r is Ok,
            Some(e) => r is Err && r->Err_0@ == e,
        },
{
    match find_gap(blocks) {
        Some(k) => {
            return Err(BatchError::InvalidBlockNumbers(u64_to_le_bytes(blocks[k].number)));
        },
        None => {},
    }
    if l1_txs_exceed(blocks) {
        return Err(BatchError::NumL1TxTooLarge);
    }
    if txs_exceed(blocks) {
        return Err(BatchError::NumTxTooLarge);
    }
    match find_bad_nonce(blocks) {
        Some(k) => {
            let (chunk_id, block_id) = locate(sizes, k as u64);
            Err(
                BatchError::InvalidL1Nonce {
                    expect: next_nonce_of(&blocks[k - 1]),
                    current: blocks[k].l1_nonce,
                    batch_id: id,
                    chunk_id,
                    block_id,
                    tx_hash: keccak256(blocks[k].txs.as_slice()),
                },
            )
        },
        None => Ok(()),
    }
}

} // verus!
