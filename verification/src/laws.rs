//! What holds of every batch and of every run.

use crate::assemble::{lemma_cut_sizes, lemma_fits, lemma_no_gap_from, lemma_numbers_without_gap};
use crate::batch_verifier::{merged_from, replayed_at, selected_version};
use crate::context::{context_blocks, context_versions, ExecutionResult, Pob, PobContext, Poe};
use crate::error::BatchErrorView;
use crate::hardfork::Hardfork;
use crate::layout::{
    batch_hash, blocks_in, build, cut_sizes, decode, decode_block, decode_blocks, decode_chunks,
    encode, encode_block, encode_blocks, encode_chunks, first_bad_nonce, first_gap, first_misfit,
    is_batch, lemma_blocks_in_nonneg, max_chunks, next_nonce, parse, violation, BatchView,
    BlockView,
};
use crate::parallel::{handed_out_at, reported_at, Slot};
use crate::primitives::B256;
use crate::rules::lemma_well_laid_has_blocks;
use vstd::bytes::{
    lemma_auto_spec_u16_to_from_le_bytes, lemma_auto_spec_u64_to_from_le_bytes,
    spec_u16_to_le_bytes, spec_u64_to_le_bytes,
};
use vstd::prelude::*;

verus! {

/// The record of a block, followed by anything, decodes to the block.
pub proof fn lemma_block_round_trip(b: BlockView, rest: Seq<u8>)
    requires
        b.txs.len() <= u64::MAX,
    ensures
        encode_block(b).len() == 36 + b.txs.len(),
        decode_block(encode_block(b) + rest) == Some((b, (36 + b.txs.len()) as nat)),
{
    lemma_auto_spec_u64_to_from_le_bytes();
    lemma_auto_spec_u16_to_from_le_bytes();
    let d = encode_block(b) + rest;
    let n = b.txs.len() as u64;
    assert(d.subrange(0, 8) =~= spec_u64_to_le_bytes(b.number));
    assert(d.subrange(8, 16) =~= spec_u64_to_le_bytes(b.timestamp));
    assert(d.subrange(16, 24) =~= spec_u64_to_le_bytes(b.l1_nonce));
    assert(d.subrange(24, 26) =~= spec_u16_to_le_bytes(b.num_txs));
    assert(d.subrange(26, 28) =~= spec_u16_to_le_bytes(b.num_l1_txs));
    assert(d.subrange(28, 36) =~= spec_u64_to_le_bytes(n));
    assert(d.subrange(36, 36 + n) =~= b.txs);
    let got = decode_block(d)->Some_0.0;
    assert(got.txs == b.txs);
    assert(got == b);
}

/// The records of `n` blocks take at least 36 bytes each.
pub proof fn lemma_encoded_blocks_len(blocks: Seq<BlockView>, from: int, n: nat)
    requires
        0 <= from,
        from + n <= blocks.len(),
        forall|k: int| 0 <= k < blocks.len() ==> (#[trigger] blocks[k]).txs.len() <= u64::MAX,
    ensures
        encode_blocks(blocks, from, n).len() >= 36 * n,
    decreases n,
{
    if n > 0 {
        lemma_block_round_trip(blocks[from], Seq::empty());
        lemma_encoded_blocks_len(blocks, from + 1, (n - 1) as nat);
    }
}

/// The records of `n` blocks, followed by anything, decode to the blocks
/// and leave what followed.
pub proof fn lemma_blocks_round_trip(blocks: Seq<BlockView>, from: int, n: nat, rest: Seq<u8>)
    requires
        0 <= from,
        from + n <= blocks.len(),
        forall|k: int| 0 <= k < blocks.len() ==> (#[trigger] blocks[k]).txs.len() <= u64::MAX,
    ensures
        decode_blocks(encode_blocks(blocks, from, n) + rest, n) == Ok::<
            (Seq<BlockView>, Seq<u8>),
            Seq<u8>,
        >((blocks.subrange(from, from + n), rest)),
    decreases n,
{
    let d = encode_blocks(blocks, from, n) + rest;
    if n == 0 {
        assert(d =~= rest);
        assert(blocks.subrange(from, from + n) =~= Seq::<BlockView>::empty());
    } else {
        let b = blocks[from];
        let later = encode_blocks(blocks, from + 1, (n - 1) as nat) + rest;
        assert(d =~= encode_block(b) + later);
        lemma_block_round_trip(b, later);
        let k = 36 + b.txs.len();
        assert(d.skip(k as int) =~= later);
        lemma_blocks_round_trip(blocks, from + 1, (n - 1) as nat, rest);
        assert(seq![b] + blocks.subrange(from + 1, from + n) =~= blocks.subrange(from, from + n));
    }
}

/// The bytes of the chunks `c..` decode to those chunks and leave nothing.
pub proof fn lemma_chunks_round_trip(
    sizes: Seq<u8>,
    blocks: Seq<BlockView>,
    c: int,
    from: int,
    version: u8,
    total: nat,
)
    requires
        0 <= c <= sizes.len(),
        0 <= from,
        from + blocks_in(sizes, c) == blocks.len(),
        forall|i: int| 0 <= i < sizes.len() ==> #[trigger] sizes[i] >= 1,
        forall|k: int| 0 <= k < blocks.len() ==> (#[trigger] blocks[k]).txs.len() <= u64::MAX,
    ensures
        decode_chunks(
            encode_chunks(sizes, blocks, c, from),
            (sizes.len() - c) as nat,
            version,
            total,
        ) == Ok::<(Seq<u8>, Seq<BlockView>, Seq<u8>), BatchErrorView>(
            (sizes.skip(c), blocks.skip(from), Seq::empty()),
        ),
    decreases sizes.len() - c,
{
    let d = encode_chunks(sizes, blocks, c, from);
    if c == sizes.len() {
        assert(sizes.skip(c) =~= Seq::<u8>::empty());
        assert(blocks.skip(from) =~= Seq::<BlockView>::empty());
    } else {
        let n = sizes[c];
        lemma_blocks_in_nonneg(sizes, c + 1);
        let later = encode_chunks(sizes, blocks, c + 1, from + n);
        let records = encode_blocks(blocks, from, n as nat);
        assert(d =~= seq![n] + (records + later));
        assert(d[0] == n);
        lemma_encoded_blocks_len(blocks, from, n as nat);
        assert(d.skip(1) =~= records + later);
        lemma_blocks_round_trip(blocks, from, n as nat, later);
        lemma_chunks_round_trip(sizes, blocks, c + 1, from + n, version, total);
        assert(seq![n] + sizes.skip(c + 1) =~= sizes.skip(c));
        assert(blocks.subrange(from, from + n) + blocks.skip(from + n) =~= blocks.skip(from));
    }
}

/// Round trip. The committed form of a batch decodes to that batch, so the
/// decoded batch has the hash of the one that was encoded.
pub proof fn lemma_round_trip(b: BatchView)
    requires
        is_batch(b),
    ensures
        decode(encode(b)) == Ok::<BatchView, BatchErrorView>(b),
        batch_hash(decode(encode(b))->Ok_0) == batch_hash(b),
{
    lemma_auto_spec_u64_to_from_le_bytes();
    let d = encode(b);
    let chunks = encode_chunks(b.sizes, b.blocks, 0, 0);
    let count = b.sizes.len() as u8;
    assert(d.subrange(1, 9) =~= spec_u64_to_le_bytes(b.id));
    assert(d[0] == b.version);
    assert(d[9] == count);
    assert(d.skip(10) =~= chunks);
    lemma_chunks_round_trip(b.sizes, b.blocks, 0, 0, b.version, d.len());
    assert(b.sizes.skip(0) =~= b.sizes);
    assert(b.blocks.skip(0) =~= b.blocks);
    let bare = BatchView {
        id: b.id,
        version: b.version,
        sizes: b.sizes,
        blocks: b.blocks,
        commitment: Seq::empty(),
    };
    assert(parse(d) == Ok::<BatchView, BatchErrorView>(bare));
    assert(violation(bare) == violation(b));
}

/// A batch that building gives is a batch.
pub proof fn lemma_built_is_batch(t: BatchView, version: u8, ctxs: Seq<PobContext>)
    requires
        is_batch(t),
        build(t, version, context_blocks(ctxs), context_versions(ctxs)) is Ok,
    ensures
        is_batch(build(t, version, context_blocks(ctxs), context_versions(ctxs))->Ok_0),
{
    let blocks = context_blocks(ctxs);
    let versions = context_versions(ctxs);
    let m = blocks.len() as int;
    lemma_well_laid_has_blocks(t);
    lemma_fits(t, version, blocks, versions, 0, m - 1);
    lemma_numbers_without_gap(t.blocks, t.blocks.len() - 1);
    lemma_cut_sizes(t.sizes, 0, m);
    assert forall|k: int| 0 <= k < blocks.len() implies (#[trigger] blocks[k]).txs.len()
        <= u64::MAX by {
        assert(ctxs[k].pob.block.txs@.len() == ctxs[k].pob.block.txs.len());
    }
}

/// Round trip of a built batch. For every batch built from contexts along a
/// committed batch, decoding its committed form gives a batch of the same
/// hash: the built batch itself.
pub proof fn lemma_built_round_trip(t: BatchView, version: u8, ctxs: Seq<PobContext>)
    requires
        is_batch(t),
        build(t, version, context_blocks(ctxs), context_versions(ctxs)) is Ok,
    ensures
        decode(encode(build(t, version, context_blocks(ctxs), context_versions(ctxs))->Ok_0))
            == build(t, version, context_blocks(ctxs), context_versions(ctxs)),
        batch_hash(
            decode(
                encode(build(t, version, context_blocks(ctxs), context_versions(ctxs))->Ok_0),
            )->Ok_0,
        ) == batch_hash(build(t, version, context_blocks(ctxs), context_versions(ctxs))->Ok_0),
{
    lemma_built_is_batch(t, version, ctxs);
    lemma_round_trip(build(t, version, context_blocks(ctxs), context_versions(ctxs))->Ok_0);
}

/// Where the blocks are those of the batch `t` itself, each of the version
/// `version`, none from `i` on misfits.
pub proof fn lemma_own_blocks_fit(t: BatchView, version: u8, versions: Seq<u8>, i: int)
    requires
        is_batch(t),
        0 <= i,
        versions.len() == t.blocks.len(),
        forall|k: int| 0 <= k < versions.len() ==> #[trigger] versions[k] == version,
    ensures
        first_misfit(t, version, t.blocks, versions, i) is None,
    decreases t.blocks.len() - i,
{
    if i < t.blocks.len() {
        lemma_numbers_without_gap(t.blocks, i);
        lemma_numbers_without_gap(t.blocks, t.blocks.len() - 1);
        lemma_own_blocks_fit(t, version, versions, i + 1);
    }
}

/// Cutting chunks after all of their blocks leaves them as they are.
pub proof fn lemma_cut_at_the_end(sizes: Seq<u8>, c: int)
    requires
        0 <= c <= sizes.len(),
        forall|i: int| 0 <= i < sizes.len() ==> #[trigger] sizes[i] >= 1,
    ensures
        cut_sizes(sizes, c, blocks_in(sizes, c)) == sizes.skip(c),
    decreases sizes.len() - c,
{
    if c == sizes.len() {
        assert(sizes.skip(c) =~= Seq::<u8>::empty());
    } else {
        lemma_blocks_in_nonneg(sizes, c + 1);
        if c + 1 < sizes.len() {
            assert(sizes[c + 1] >= 1);
            lemma_blocks_in_nonneg(sizes, c + 2);
        }
        lemma_cut_at_the_end(sizes, c + 1);
        if c + 1 == sizes.len() {
            assert(sizes.skip(c) =~= seq![sizes[c]]);
        } else {
            assert(seq![sizes[c]] + sizes.skip(c + 1) =~= sizes.skip(c));
        }
    }
}

/// Agreement of the two paths. A batch built at its own version from its own
/// blocks, along its own chunks, is that batch: decoding a committed batch
/// and building it locally from the same content give one hash.
pub proof fn lemma_rebuilt_is_the_same(t: BatchView, versions: Seq<u8>)
    requires
        is_batch(t),
        versions.len() == t.blocks.len(),
        forall|k: int| 0 <= k < versions.len() ==> #[trigger] versions[k] == t.version,
    ensures
        build(t, t.version, t.blocks, versions) == Ok::<BatchView, BatchErrorView>(t),
        batch_hash(build(t, t.version, t.blocks, versions)->Ok_0) == batch_hash(t),
{
    lemma_well_laid_has_blocks(t);
    lemma_own_blocks_fit(t, t.version, versions, 0);
    lemma_cut_at_the_end(t.sizes, 0);
    assert(t.sizes.skip(0) =~= t.sizes);
    let bare = BatchView {
        id: t.id,
        version: t.version,
        sizes: t.sizes,
        blocks: t.blocks,
        commitment: Seq::empty(),
    };
    assert(violation(bare) == violation(t));
}

/// Contiguity. In a batch every block's number is its predecessor's plus one;
/// calldata that parses to blocks with a gap does not decode, and fails with
/// the bytes of the number that does not follow.
pub proof fn lemma_numbers_contiguous(d: Seq<u8>)
    ensures
        decode(d) is Ok ==> forall|k: int|
            1 <= k < decode(d)->Ok_0.blocks.len() ==> (#[trigger] decode(d)->Ok_0.blocks[k]).number
                == decode(d)->Ok_0.blocks[k - 1].number + 1,
        parse(d) is Ok && first_gap(parse(d)->Ok_0.blocks, 1) is Some ==> decode(d) == Err::<
            BatchView,
            BatchErrorView,
        >(
            BatchErrorView::ParseBatchTaskFromCalldata(
                Box::new(
                    BatchErrorView::InvalidBlockNumbers(
                        spec_u64_to_le_bytes(
                            parse(d)->Ok_0.blocks[first_gap(
                                parse(d)->Ok_0.blocks,
                                1,
                            )->Some_0].number,
                        ),
                    ),
                ),
            ),
        ),
{
    if decode(d) is Ok {
        let blocks = decode(d)->Ok_0.blocks;
        assert(blocks == parse(d)->Ok_0.blocks);
        assert forall|k: int| 1 <= k < blocks.len() implies (#[trigger] blocks[k]).number
            == blocks[k - 1].number + 1 by {
            lemma_no_gap_from(blocks, 1, k);
        }
    }
}

/// Where no nonce from `from` on is off the counter, the nonce at `k` is the
/// counter after the block before.
pub proof fn lemma_nonce_follows(blocks: Seq<BlockView>, from: int, k: int)
    requires
        first_bad_nonce(blocks, from) is None,
        1 <= from <= k < blocks.len(),
    ensures
        blocks[k].l1_nonce == next_nonce(blocks[k - 1]),
    decreases k - from,
{
    if from < k {
        lemma_nonce_follows(blocks, from + 1, k);
    }
}

/// Nonce monotonicity. In a batch the L1 message nonces of the blocks, in
/// order across chunks, never decrease.
pub proof fn lemma_nonces_never_decrease(b: BatchView, i: int, j: int)
    requires
        is_batch(b),
        0 <= i <= j < b.blocks.len(),
    ensures
        b.blocks[i].l1_nonce <= b.blocks[j].l1_nonce,
    decreases j - i,
{
    if i < j {
        lemma_nonces_never_decrease(b, i, j - 1);
        lemma_nonce_follows(b.blocks, 1, j);
    }
}

/// Capacity. What decodes has between one chunk and its version's maximum,
/// and no empty chunk: the last chunk in particular holds a block.
pub proof fn lemma_decoded_within_capacity(d: Seq<u8>)
    requires
        decode(d) is Ok,
    ensures
        1 <= decode(d)->Ok_0.sizes.len() <= max_chunks(decode(d)->Ok_0.version),
        decode(d)->Ok_0.sizes.last() >= 1,
        is_batch(decode(d)->Ok_0),
{
    crate::parse::lemma_parsed_is_well_laid(d);
    let b = decode(d)->Ok_0;
    assert(b.sizes[b.sizes.len() - 1] >= 1);
}

/// Whether `t` is the course of a run over the items whose values are
/// `values`: it starts with every item waiting, and each step hands out an
/// item that waits or takes the value of an item that runs. Which item
/// moves at a step is free: the course may report in any order.
pub open spec fn is_run<T>(t: Seq<Seq<Slot<T>>>, values: Seq<T>) -> bool {
    &&& t.len() > 0
    &&& t[0] == Seq::new(values.len(), |i: int| Slot::<T>::Waiting)
    &&& forall|k: int| 0 <= k < t.len() - 1 ==> run_step(#[trigger] t[k], t[k + 1], values)
}

/// One step of a run from `a` to `b`: some item moves.
pub open spec fn run_step<T>(a: Seq<Slot<T>>, b: Seq<Slot<T>>, values: Seq<T>) -> bool {
    exists|i: int| #[trigger] moves_at(a, b, i, values)
}

/// Item `i` moves from `a` to `b`: it is handed out, or it reports its value.
pub open spec fn moves_at<T>(a: Seq<Slot<T>>, b: Seq<Slot<T>>, i: int, values: Seq<T>) -> bool {
    0 <= i < values.len() && (handed_out_at(a, b, i) || reported_at(a, b, i, values[i]))
}

/// At every point of a run, an item that is done holds its own value.
pub proof fn lemma_run_keeps_values_in_place<T>(t: Seq<Seq<Slot<T>>>, values: Seq<T>, k: int)
    requires
        is_run(t, values),
        0 <= k < t.len(),
    ensures
        t[k].len() == values.len(),
        forall|i: int|
            0 <= i < values.len() ==> ((#[trigger] t[k][i]) is Waiting || t[k][i] is Running
                || t[k][i] == Slot::Done(values[i])),
    decreases k,
{
    if k > 0 {
        lemma_run_keeps_values_in_place(t, values, k - 1);
        let a = t[k - 1];
        let b = t[k];
        assert(run_step(a, t[k - 1 + 1], values));
        let moved = choose|i: int| #[trigger] moves_at(a, b, i, values);
        assert forall|i: int| 0 <= i < values.len() implies ((#[trigger] b[i]) is Waiting
            || b[i] is Running || b[i] == Slot::Done(values[i])) by {
            if i != moved {
                assert(b[i] == a[i]);
            }
        }
    }
}

/// Order preservation. A run that ends with every item done ends with the
/// values in the order of their items, whatever the order in which the items
/// were handed out and reported, and however many of them there are: what
/// `Parallel::finish` returns for its last state is `values`.
pub proof fn lemma_finished_run_is_in_input_order<T>(
    t: Seq<Seq<Slot<T>>>,
    values: Seq<T>,
    out: Seq<T>,
)
    requires
        is_run(t, values),
        out.len() == t.last().len(),
        forall|i: int| 0 <= i < out.len() ==> (#[trigger] t.last()[i]) == Slot::Done(out[i]),
    ensures
        out == values,
{
    lemma_run_keeps_values_in_place(t, values, t.len() - 1);
    assert forall|i: int| 0 <= i < out.len() implies out[i] == values[i] by {
        assert(t.last()[i] == Slot::Done(out[i]));
    }
    assert(out =~= values);
}

/// Fetching a range. Let `numbers` be the block numbers of a range in
/// ascending order, as `ScrollBatchVerifier::generate_context` returns them,
/// and `pobs[i]` the input that the fetch for `numbers[i]` gave. A run over
/// them that ends with every item done ends with one input for each block of
/// the range, in ascending block order, whatever the order in which the
/// fetches ended.
pub proof fn lemma_fetched_range_is_in_block_order(
    t: Seq<Seq<Slot<Pob>>>,
    numbers: Seq<u64>,
    pobs: Seq<Pob>,
    out: Seq<Pob>,
)
    requires
        numbers.len() == pobs.len(),
        is_run(t, pobs),
        out.len() == t.last().len(),
        forall|i: int| 0 <= i < out.len() ==> (#[trigger] t.last()[i]) == Slot::Done(out[i]),
    ensures
        out.len() == numbers.len(),
        forall|i: int| 0 <= i < numbers.len() ==> #[trigger] out[i] == pobs[i],
{
    lemma_finished_run_is_in_input_order(t, pobs, out);
}

/// The order in which two items report leaves no trace: either order leaves
/// each value at its item's position.
pub proof fn lemma_completion_order_is_irrelevant<T>(
    slots: Seq<Slot<T>>,
    i: int,
    x: Slot<T>,
    j: int,
    y: Slot<T>,
)
    requires
        0 <= i < slots.len(),
        0 <= j < slots.len(),
        i != j,
    ensures
        slots.update(i, x).update(j, y) == slots.update(j, y).update(i, x),
        slots.update(i, x).update(j, y)[i] == x,
        slots.update(i, x).update(j, y)[j] == y,
{
    assert(slots.update(i, x).update(j, y) =~= slots.update(j, y).update(i, x));
}

/// Whether the engine's results `results` agree with the roots claimed by
/// the contexts `ctxs`, one for one.
pub open spec fn agree(ctxs: Seq<PobContext>, results: Seq<ExecutionResult>) -> bool {
    &&& results.len() == ctxs.len()
    &&& forall|i: int|
        0 <= i < ctxs.len() ==> (#[trigger] results[i]).new_state_root@ == ctxs[i].pob.state_root@
            && results[i].new_withdrawal_root@ == ctxs[i].pob.withdrawal_root@
}

/// Whether `t` is the course of a verification run over `ctxs` in which the
/// engine returns `results[i]` for the context at `i`: it starts with every
/// context waiting, and each step hands out a context or takes the result
/// of one that is being replayed, in any order.
pub open spec fn is_replay(
    t: Seq<Seq<Slot<Poe>>>,
    ctxs: Seq<PobContext>,
    results: Seq<ExecutionResult>,
) -> bool {
    &&& t.len() > 0
    &&& results.len() == ctxs.len()
    &&& t[0] == Seq::new(ctxs.len(), |i: int| Slot::<Poe>::Waiting)
    &&& forall|k: int|
        0 <= k < t.len() - 1 ==> replay_step(#[trigger] t[k], t[k + 1], ctxs, results)
}

/// One step of a verification run from `a` to `b`: some context moves.
pub open spec fn replay_step(
    a: Seq<Slot<Poe>>,
    b: Seq<Slot<Poe>>,
    ctxs: Seq<PobContext>,
    results: Seq<ExecutionResult>,
) -> bool {
    exists|i: int| #[trigger] replays_at(a, b, i, ctxs, results)
}

/// The context at `i` moves from `a` to `b`: it is handed out, or the
/// engine's result for it is taken.
pub open spec fn replays_at(
    a: Seq<Slot<Poe>>,
    b: Seq<Slot<Poe>>,
    i: int,
    ctxs: Seq<PobContext>,
    results: Seq<ExecutionResult>,
) -> bool {
    0 <= i < ctxs.len() && (handed_out_at(a, b, i) || replayed_at(a, b, i, ctxs[i], results[i]))
}

/// At every point of a verification run, a slot that is done holds the
/// fragment of its own context's block, with the roots that the engine
/// returned for it; no slot has failed.
pub proof fn lemma_replay_keeps_fragments_in_place(
    t: Seq<Seq<Slot<Poe>>>,
    ctxs: Seq<PobContext>,
    results: Seq<ExecutionResult>,
    k: int,
)
    requires
        is_replay(t, ctxs, results),
        0 <= k < t.len(),
    ensures
        t[k].len() == ctxs.len(),
        forall|i: int|
            0 <= i < ctxs.len() ==> ((#[trigger] t[k][i]) is Waiting || t[k][i] is Running || {
                &&& t[k][i] is Done
                &&& t[k][i]->Done_0.prev_state_root == ctxs[i].pob.prev_state_root
                &&& t[k][i]->Done_0.new_state_root == results[i].new_state_root
                &&& t[k][i]->Done_0.withdrawal_root == results[i].new_withdrawal_root
            }),
    decreases k,
{
    if k > 0 {
        lemma_replay_keeps_fragments_in_place(t, ctxs, results, k - 1);
        let a = t[k - 1];
        let b = t[k];
        assert(replay_step(a, t[k - 1 + 1], ctxs, results));
        let moved = choose|i: int| #[trigger] replays_at(a, b, i, ctxs, results);
        assert forall|i: int| 0 <= i < ctxs.len() implies ((#[trigger] b[i]) is Waiting || b[i]
            is Running || {
            &&& b[i] is Done
            &&& b[i]->Done_0.prev_state_root == ctxs[i].pob.prev_state_root
            &&& b[i]->Done_0.new_state_root == results[i].new_state_root
            &&& b[i]->Done_0.withdrawal_root == results[i].new_withdrawal_root
        }) by {
            if i != moved {
                assert(b[i] == a[i]);
            }
        }
    }
}

/// End to end. Take a verification run over one context or more in which
/// the engine's result for every block agrees with the roots claimed for it.
/// When every context is done, whatever the order of the reports, the proof
/// merged from the slots under the hash of the local batch starts at the
/// first context's previous state root, ends at the roots that the engine
/// returned for the last context, which are the roots claimed for it, and
/// carries that hash. `VerifyRun::finish` returns such a proof for such a
/// state, and returns no error for it.
pub proof fn lemma_agreeing_run_gives_the_proof(
    t: Seq<Seq<Slot<Poe>>>,
    ctxs: Seq<PobContext>,
    results: Seq<ExecutionResult>,
    hash: B256,
    poe: Poe,
)
    requires
        ctxs.len() >= 1,
        agree(ctxs, results),
        is_replay(t, ctxs, results),
        forall|i: int| 0 <= i < t.last().len() ==> (#[trigger] t.last()[i]) is Done,
        merged_from(poe, hash, t.last()),
    ensures
        poe.batch_hash == hash,
        poe.prev_state_root == ctxs[0].pob.prev_state_root,
        poe.new_state_root == results.last().new_state_root,
        poe.withdrawal_root == results.last().new_withdrawal_root,
        poe.new_state_root@ == ctxs.last().pob.state_root@,
        poe.withdrawal_root@ == ctxs.last().pob.withdrawal_root@,
{
    lemma_replay_keeps_fragments_in_place(t, ctxs, results, t.len() - 1);
    let last = t.last();
    assert(last[0] is Done);
    assert(last[ctxs.len() - 1] is Done);
    assert(results[ctxs.len() - 1].new_state_root@ == ctxs[ctxs.len() - 1].pob.state_root@);
}

/// Round trip through a verification. Let `b` be the batch built from
/// contexts at a version. Its committed form decodes to `b`, and building
/// from the same contexts at the same version along the decoded batch gives
/// `b` again: a verification of that committed form against those contexts
/// binds its proof to the hash of `b`, which is the hash of the decoded
/// batch.
pub proof fn lemma_built_batch_verifies_to_its_own_hash(
    t: BatchView,
    version: u8,
    ctxs: Seq<PobContext>,
)
    requires
        is_batch(t),
        build(t, version, context_blocks(ctxs), context_versions(ctxs)) is Ok,
    ensures
        decode(encode(build(t, version, context_blocks(ctxs), context_versions(ctxs))->Ok_0))
            == build(t, version, context_blocks(ctxs), context_versions(ctxs)),
        build(
            build(t, version, context_blocks(ctxs), context_versions(ctxs))->Ok_0,
            version,
            context_blocks(ctxs),
            context_versions(ctxs),
        ) == build(t, version, context_blocks(ctxs), context_versions(ctxs)),
{
    let blocks = context_blocks(ctxs);
    let versions = context_versions(ctxs);
    let b = build(t, version, blocks, versions)->Ok_0;
    lemma_built_round_trip(t, version, ctxs);
    lemma_built_is_batch(t, version, ctxs);
    lemma_well_laid_has_blocks(t);
    assert forall|k: int| 0 <= k < versions.len() implies #[trigger] versions[k] == b.version by {
        lemma_fits(t, version, blocks, versions, 0, k);
    }
    lemma_rebuilt_is_the_same(b, versions);
}

/// Version selection. The version that a run selects is a function of the
/// last context's block number and timestamp: two lists of contexts whose
/// last blocks agree in both select the same version under one table.
pub proof fn lemma_version_selected_by_last_context(
    forks: Seq<Hardfork>,
    a: Seq<PobContext>,
    b: Seq<PobContext>,
)
    requires
        a.len() > 0,
        b.len() > 0,
        a.last().pob.block.number == b.last().pob.block.number,
        a.last().pob.block.timestamp == b.last().pob.block.timestamp,
    ensures
        selected_version(forks, a) == selected_version(forks, b),
{
}

} // verus!
