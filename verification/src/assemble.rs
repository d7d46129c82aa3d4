//! Laying blocks out along the chunks of a committed batch.

use crate::context::{context_blocks, context_versions, PobContext};
use crate::error::BatchError;
use crate::layout::{
    blocks_in, cut_sizes, first_gap, first_misfit, lemma_blocks_in_shift, position, BatchView,
    BlockView,
};
use crate::parse::{block_views, Block};
use crate::rules::locate;
use vstd::prelude::*;
use vstd::slice::slice_to_vec;

verus! {

/// Without a gap, every block's number is the first one's plus its position.
pub proof fn lemma_numbers_without_gap(blocks: Seq<BlockView>, k: int)
    requires
        first_gap(blocks, 1) is None,
        0 <= k < blocks.len(),
    ensures
        blocks[k].number == blocks[0].number + k,
    decreases k,
{
    if k > 0 {
        lemma_numbers_without_gap(blocks, k - 1);
        lemma_no_gap_from(blocks, 1, k);
    }
}

/// Where no gap is found from `from` on, the block at `k` follows its predecessor.
pub proof fn lemma_no_gap_from(blocks: Seq<BlockView>, from: int, k: int)
    requires
        first_gap(blocks, from) is None,
        1 <= from <= k < blocks.len(),
    ensures
        blocks[k].number == blocks[k - 1].number + 1,
    decreases k - from,
{
    if from < k {
        lemma_no_gap_from(blocks, from + 1, k);
    }
}

/// Cutting chunks that hold at least `m` blocks gives chunks that hold `m`:
/// none empty, no more of them than there were, and one at least where `m`
/// is not zero.
pub proof fn lemma_cut_sizes(sizes: Seq<u8>, c: int, m: int)
    requires
        0 <= c <= sizes.len(),
        0 <= m <= blocks_in(sizes, c),
        forall|i: int| 0 <= i < sizes.len() ==> #[trigger] sizes[i] >= 1,
    ensures
        blocks_in(cut_sizes(sizes, c, m), 0) == m,
        cut_sizes(sizes, c, m).len() <= sizes.len() - c,
        m >= 1 ==> cut_sizes(sizes, c, m).len() >= 1,
        forall|i: int|
            0 <= i < cut_sizes(sizes, c, m).len() ==> #[trigger] cut_sizes(sizes, c, m)[i] >= 1,
    decreases sizes.len() - c,
{
    let r = cut_sizes(sizes, c, m);
    if c >= sizes.len() || m <= 0 {
    } else if m <= sizes[c] {
        assert(r[0] == m);
        assert(blocks_in(r, 1) == 0);
    } else {
        let tail = cut_sizes(sizes, c + 1, m - sizes[c]);
        lemma_cut_sizes(sizes, c + 1, m - sizes[c]);
        lemma_blocks_in_shift(sizes[c], tail, 0);
        assert(r[0] == sizes[c]);
        assert forall|i: int| 0 <= i < r.len() implies #[trigger] r[i] >= 1 by {
            if i > 0 {
                assert(r[i] == tail[i - 1]);
            }
        }
    }
}

/// Where no block from `i` on misfits, the block at `k` stands in the batch
/// at its own position and belongs to the version.
pub proof fn lemma_fits(
    t: BatchView,
    version: u8,
    blocks: Seq<BlockView>,
    versions: Seq<u8>,
    i: int,
    k: int,
)
    requires
        first_misfit(t, version, blocks, versions, i) is None,
        0 <= i <= k < blocks.len(),
    ensures
        blocks[k].number == t.blocks[0].number + k,
        blocks[k].number <= t.blocks.last().number,
        versions[k] == version,
    decreases k - i,
{
    if i < k {
        lemma_fits(t, version, blocks, versions, i + 1, k);
    }
}

/// A copy of `b`.
pub fn copy_block(b: &Block) -> (r: Block)
    ensures
        r@ == b@,
{
    Block {
        number: b.number,
        timestamp: b.timestamp,
        l1_nonce: b.l1_nonce,
        num_txs: b.num_txs,
        num_l1_txs: b.num_l1_txs,
        txs: slice_to_vec(b.txs.as_slice()),
    }
}

/// The sizes of the chunks cut after their first `m` blocks.
pub fn cut(sizes: &Vec<u8>, m: usize) -> (r: Vec<u8>)
    ensures
        r@ == cut_sizes(sizes@, 0, m as int),
{
    let mut out: Vec<u8> = Vec::new();
    let mut c: usize = 0;
    let mut left: usize = m;
    assert(out@ + cut_sizes(sizes@, 0, m as int) =~= cut_sizes(sizes@, 0, m as int));
    while c < sizes.len() && left > 0
        invariant
            c <= sizes@.len(),
            out@ + cut_sizes(sizes@, c as int, left as int) == cut_sizes(sizes@, 0, m as int),
        decreases sizes@.len() - c,
    {
        let n = sizes[c];
        let ghost before = out@;
        if left <= n as usize {
            out.push(left as u8);
            assert(out@ =~= before + cut_sizes(sizes@, c as int, left as int));
            return out;
        }
        out.push(n);
        assert((before + seq![n]) + cut_sizes(sizes@, c + 1, left - n) =~= before + (seq![n]
            + cut_sizes(sizes@, c + 1, left - n)));
        assert(out@ =~= before + seq![n]);
        left = left - n as usize;
        c += 1;
    }
    assert(out@ + cut_sizes(sizes@, c as int, left as int) =~= out@);
    out
}

/// Copies the blocks of `ctxs`, each checked against the batch whose chunks
/// are `sizes` and whose blocks run from number `start` to number `end`.
pub(crate) fn lay_out(
    t: Ghost<BatchView>,
    sizes: &Vec<u8>,
    start: u64,
    end: u64,
    version: u8,
    ctxs: &[PobContext],
) -> (r: Result<Vec<Block>, BatchError>)
    requires
        t@.sizes == sizes@,
        t@.blocks.len() > 0,
        t@.blocks[0].number == start,
        t@.blocks.last().number == end,
    ensures
        match first_misfit(t@, version, context_blocks(ctxs@), context_versions(ctxs@), 0) {
            Some(e) => r is Err && r->Err_0@ == e,
            None => r is Ok && block_views(r->Ok_0@) == context_blocks(ctxs@),
        },
{
    let ghost cb = context_blocks(ctxs@);
    let ghost cv = context_versions(ctxs@);
    let mut blocks: Vec<Block> = Vec::new();
    let mut i: usize = 0;
    while i < ctxs.len()
        invariant
            i <= ctxs@.len(),
            cb == context_blocks(ctxs@),
            cv == context_versions(ctxs@),
            t@.sizes == sizes@,
            t@.blocks.len() > 0,
            t@.blocks[0].number == start,
            t@.blocks.last().number == end,
            first_misfit(t@, version, cb, cv, 0) == first_misfit(t@, version, cb, cv, i as int),
            blocks@.len() == i,
            block_views(blocks@) == cb.subrange(0, i as int),
        decreases ctxs@.len() - i,
    {
        let ctx = &ctxs[i];
        let number = ctx.pob.block.number;
        if number < start || number > end {
            return Err(BatchError::UnknownBlock);
        }
        let at = number - start;
        if at != i as u64 {
            let want = locate(sizes, i as u64);
            let got = locate(sizes, at);
            return Err(BatchError::UnexpectedBlock { want, got });
        }
        if ctx.batch_version != version {
            return Err(
                BatchError::MismatchBatchVersionAndBlock {
                    block_batch_version: ctx.batch_version,
                    parent_batch_version: version,
                },
            );
        }
        let b = copy_block(&ctx.pob.block);
        assert(b@ == cb[i as int]);
        assert forall|j: int| 0 <= j < i + 1 implies block_views(blocks@.push(b))[j]
            == cb.subrange(0, i + 1)[j] by {
            if j < i {
                assert(block_views(blocks@)[j] == cb.subrange(0, i as int)[j]);
            }
        }
        assert(block_views(blocks@.push(b)) =~= cb.subrange(0, i + 1));
        blocks.push(b);
        i += 1;
    }
    assert(cb.subrange(0, i as int) =~= cb);
    Ok(blocks)
}

} // verus!
