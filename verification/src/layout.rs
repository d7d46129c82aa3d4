//! The committed form of a batch, as functions on byte sequences.
//!
//! ```text
//! calldata := version:1  id:8  chunk_count:1  chunk*
//! chunk    := block_count:1  block*
//! block    := number:8  timestamp:8  l1_nonce:8  num_txs:2  num_l1_txs:2
//!             tx_len:8  tx_bytes:tx_len
//! ```
//!
//! Integers are little-endian. A batch is held flat: the block counts of its
//! chunks, and its blocks in order.

use crate::commit::{commitment_for, keccak256_spec};
use crate::error::BatchErrorView;
use vstd::bytes::*;
use vstd::prelude::*;

verus! {

/// Highest version tag with a codec.
pub const MAX_VERSION: u8 = 4;

/// Bytes before the first chunk.
pub const HEADER_LEN: usize = 10;

/// Bytes of a block record before its transaction bytes.
pub const BLOCK_FIXED_LEN: usize = 36;

/// Most transactions in a batch.
pub const MAX_TXS: u64 = 65535;

/// Most L1-originated transactions in a batch.
pub const MAX_L1_TXS: u64 = 65535;

/// Fewest blocks in the last chunk.
pub const MIN_LAST_CHUNK_BLOCKS: u8 = 1;

/// Most chunks in a batch of `version`.
pub open spec fn max_chunks(version: u8) -> nat {
    if version <= 1 {
        15
    } else {
        45
    }
}

/// A block, over sequences.
pub struct BlockView {
    pub number: u64,
    pub timestamp: u64,
    pub l1_nonce: u64,
    pub num_txs: u16,
    pub num_l1_txs: u16,
    pub txs: Seq<u8>,
}

/// A batch, over sequences: `sizes[c]` blocks in chunk `c`.
pub struct BatchView {
    pub id: u64,
    pub version: u8,
    pub sizes: Seq<u8>,
    pub blocks: Seq<BlockView>,
    pub commitment: Seq<u8>,
}

/// `x` where it fits a `usize`, else the largest `usize`.
pub open spec fn clip(x: int) -> usize {
    if x > usize::MAX {
        usize::MAX
    } else if x < 0 {
        0
    } else {
        x as usize
    }
}

/// The eight bytes of `d` from `at` on, as a number.
pub open spec fn le64_at(d: Seq<u8>, at: int) -> u64 {
    spec_u64_from_le_bytes(d.subrange(at, at + 8))
}

/// The two bytes of `d` from `at` on, as a number.
pub open spec fn le16_at(d: Seq<u8>, at: int) -> u16 {
    spec_u16_from_le_bytes(d.subrange(at, at + 2))
}

/// The record of one block.
pub open spec fn encode_block(b: BlockView) -> Seq<u8> {
    spec_u64_to_le_bytes(b.number) + spec_u64_to_le_bytes(b.timestamp) + spec_u64_to_le_bytes(
        b.l1_nonce,
    ) + spec_u16_to_le_bytes(b.num_txs) + spec_u16_to_le_bytes(b.num_l1_txs)
        + spec_u64_to_le_bytes(b.txs.len() as u64) + b.txs
}

/// The records of `blocks[from..from + n]`, one after the other.
pub open spec fn encode_blocks(blocks: Seq<BlockView>, from: int, n: nat) -> Seq<u8>
    decreases n,
{
    if n == 0 {
        Seq::empty()
    } else {
        encode_block(blocks[from]) + encode_blocks(blocks, from + 1, (n - 1) as nat)
    }
}

/// The bytes of one chunk that counts `n` blocks, from `blocks[from]` on.
pub open spec fn encode_chunk(blocks: Seq<BlockView>, from: int, n: u8) -> Seq<u8> {
    seq![n] + encode_blocks(blocks, from, n as nat)
}

/// The bytes of the chunks `c..`, whose first block is `blocks[from]`.
pub open spec fn encode_chunks(sizes: Seq<u8>, blocks: Seq<BlockView>, c: int, from: int) -> Seq<
    u8,
>
    decreases sizes.len() - c,
{
    if c < 0 || c >= sizes.len() {
        Seq::empty()
    } else {
        encode_chunk(blocks, from, sizes[c]) + encode_chunks(sizes, blocks, c + 1, from + sizes[c])
    }
}

/// The calldata of a batch.
pub open spec fn encode(b: BatchView) -> Seq<u8> {
    seq![b.version] + spec_u64_to_le_bytes(b.id) + seq![b.sizes.len() as u8] + encode_chunks(
        b.sizes,
        b.blocks,
        0,
        0,
    )
}

/// The block whose record starts `d`, and the length of that record.
pub open spec fn decode_block(d: Seq<u8>) -> Option<(BlockView, nat)> {
    if d.len() < BLOCK_FIXED_LEN {
        None
    } else if d.len() - BLOCK_FIXED_LEN < le64_at(d, 28) {
        None
    } else {
        Some(
            (
                BlockView {
                    number: le64_at(d, 0),
                    timestamp: le64_at(d, 8),
                    l1_nonce: le64_at(d, 16),
                    num_txs: le16_at(d, 24),
                    num_l1_txs: le16_at(d, 26),
                    txs: d.subrange(36, 36 + le64_at(d, 28)),
                },
                (36 + le64_at(d, 28)) as nat,
            ),
        )
    }
}

/// The `n` blocks whose records start `d` and the bytes after them, or the
/// bytes at which a record is cut short.
pub open spec fn decode_blocks(d: Seq<u8>, n: nat) -> Result<(Seq<BlockView>, Seq<u8>), Seq<u8>>
    decreases n,
{
    if n == 0 {
        Ok((Seq::empty(), d))
    } else {
        match decode_block(d) {
            None => Err(d),
            Some((b, k)) => prepend_block(b, decode_blocks(d.skip(k as int), (n - 1) as nat)),
        }
    }
}

/// `r` with `b` in front of its blocks.
pub open spec fn prepend_block(
    b: BlockView,
    r: Result<(Seq<BlockView>, Seq<u8>), Seq<u8>>,
) -> Result<(Seq<BlockView>, Seq<u8>), Seq<u8>> {
    match r {
        Ok((bs, rest)) => Ok((seq![b] + bs, rest)),
        Err(bad) => Err(bad),
    }
}

/// `r` with `pre` in front of its blocks.
pub open spec fn prepend_blocks(
    pre: Seq<BlockView>,
    r: Result<(Seq<BlockView>, Seq<u8>), Seq<u8>>,
) -> Result<(Seq<BlockView>, Seq<u8>), Seq<u8>> {
    match r {
        Ok((bs, rest)) => Ok((pre + bs, rest)),
        Err(bad) => Err(bad),
    }
}

/// What `count` chunks at the start of `d` hold: sizes, blocks and the bytes
/// after them. `total` is the length of the whole calldata.
pub open spec fn decode_chunks(d: Seq<u8>, count: nat, version: u8, total: nat) -> Result<
    (Seq<u8>, Seq<BlockView>, Seq<u8>),
    BatchErrorView,
>
    decreases count,
{
    if count == 0 {
        Ok((Seq::empty(), Seq::empty(), d))
    } else if d.len() == 0 {
        Err(
            BatchErrorView::InvalidDABatchData {
                version,
                want_at_least: clip(total as int + 1),
                got: clip(total as int),
            },
        )
    } else if d[0] < MIN_LAST_CHUNK_BLOCKS {
        if count == 1 {
            Err(BatchErrorView::TooFewBlocksInLastChunk)
        } else {
            Err(BatchErrorView::InvalidNumBlock(0))
        }
    } else if d.len() - 1 < d[0] * BLOCK_FIXED_LEN {
        Err(BatchErrorView::InvalidNumBlock(d[0] as usize))
    } else {
        match decode_blocks(d.skip(1), d[0] as nat) {
            Err(bad) => Err(BatchErrorView::InvalidBlockBytes(bad)),
            Ok((bs, rest)) => prepend_chunk(
                d[0],
                bs,
                decode_chunks(rest, (count - 1) as nat, version, total),
            ),
        }
    }
}

/// `r` with one chunk of `n` blocks `bs` in front.
pub open spec fn prepend_chunk(
    n: u8,
    bs: Seq<BlockView>,
    r: Result<(Seq<u8>, Seq<BlockView>, Seq<u8>), BatchErrorView>,
) -> Result<(Seq<u8>, Seq<BlockView>, Seq<u8>), BatchErrorView> {
    match r {
        Ok((sizes, blocks, rest)) => Ok((seq![n] + sizes, bs + blocks, rest)),
        Err(e) => Err(e),
    }
}

/// `r` with the chunks `pre_sizes` of blocks `pre_blocks` in front.
pub open spec fn prepend_chunks(
    pre_sizes: Seq<u8>,
    pre_blocks: Seq<BlockView>,
    r: Result<(Seq<u8>, Seq<BlockView>, Seq<u8>), BatchErrorView>,
) -> Result<(Seq<u8>, Seq<BlockView>, Seq<u8>), BatchErrorView> {
    match r {
        Ok((sizes, blocks, rest)) => Ok((pre_sizes + sizes, pre_blocks + blocks, rest)),
        Err(e) => Err(e),
    }
}

/// The structure that calldata `d` holds, with no commitment yet, or the first
/// thing that is wrong with it.
pub open spec fn parse(d: Seq<u8>) -> Result<BatchView, BatchErrorView> {
    if d.len() == 0 {
        Err(BatchErrorView::InvalidDABatchData { version: 0, want_at_least: 1, got: 0 })
    } else if d[0] > MAX_VERSION {
        Err(BatchErrorView::UnknownBatchVersion(d[0]))
    } else if d.len() < HEADER_LEN {
        Err(
            BatchErrorView::InvalidDABatchData {
                version: d[0],
                want_at_least: HEADER_LEN,
                got: d.len() as usize,
            },
        )
    } else if d[9] == 0 {
        Err(BatchErrorView::MissingChunks)
    } else if d[9] > max_chunks(d[0]) {
        Err(BatchErrorView::TooManyChunks { max: max_chunks(d[0]) as usize })
    } else {
        match decode_chunks(d.skip(HEADER_LEN as int), d[9] as nat, d[0], d.len()) {
            Err(e) => Err(e),
            Ok((sizes, blocks, rest)) => if rest.len() > 0 {
                Err(BatchErrorView::InvalidBlockBytes(rest))
            } else {
                Ok(
                    BatchView {
                        id: le64_at(d, 1),
                        version: d[0],
                        sizes,
                        blocks,
                        commitment: Seq::empty(),
                    },
                )
            },
        }
    }
}

/// Position of the first block from `k` on whose number does not follow its
/// predecessor's.
pub open spec fn first_gap(blocks: Seq<BlockView>, k: int) -> Option<int>
    decreases blocks.len() - k,
{
    if k < 1 || k >= blocks.len() {
        None
    } else if blocks[k].number != blocks[k - 1].number + 1 {
        Some(k)
    } else {
        first_gap(blocks, k + 1)
    }
}

/// The L1 message nonce that the block after `b` must carry: the counter
/// after the messages of `b`, which stops at the largest `u64`.
pub open spec fn next_nonce(b: BlockView) -> u64 {
    if b.l1_nonce + b.num_l1_txs > u64::MAX {
        u64::MAX
    } else {
        (b.l1_nonce + b.num_l1_txs) as u64
    }
}

/// Position of the first block from `k` on whose nonce is not the counter.
pub open spec fn first_bad_nonce(blocks: Seq<BlockView>, k: int) -> Option<int>
    decreases blocks.len() - k,
{
    if k < 1 || k >= blocks.len() {
        None
    } else if blocks[k].l1_nonce != next_nonce(blocks[k - 1]) {
        Some(k)
    } else {
        first_bad_nonce(blocks, k + 1)
    }
}

/// Transactions in the first `n` blocks.
pub open spec fn total_txs(blocks: Seq<BlockView>, n: int) -> int
    decreases n,
{
    if n <= 0 {
        0
    } else {
        total_txs(blocks, n - 1) + blocks[n - 1].num_txs
    }
}

/// L1-originated transactions in the first `n` blocks.
pub open spec fn total_l1_txs(blocks: Seq<BlockView>, n: int) -> int
    decreases n,
{
    if n <= 0 {
        0
    } else {
        total_l1_txs(blocks, n - 1) + blocks[n - 1].num_l1_txs
    }
}

/// Blocks in the chunks `c..`.
pub open spec fn blocks_in(sizes: Seq<u8>, c: int) -> int
    decreases sizes.len() - c,
{
    if c < 0 || c >= sizes.len() {
        0
    } else {
        sizes[c] + blocks_in(sizes, c + 1)
    }
}

/// The (chunk, block in chunk) position of the block that stands `k` blocks
/// after the start of chunk `c`. A block after the last chunk is counted from
/// the end of the chunks.
pub open spec fn position(sizes: Seq<u8>, c: int, k: int) -> (int, int)
    decreases sizes.len() - c,
{
    if c < 0 || c >= sizes.len() || k < sizes[c] {
        (c, k)
    } else {
        position(sizes, c + 1, k - sizes[c])
    }
}

/// The transaction bytes of `blocks[from..]`, one block after the other.
pub open spec fn payload(blocks: Seq<BlockView>, from: int) -> Seq<u8>
    decreases blocks.len() - from,
{
    if from < 0 || from >= blocks.len() {
        Seq::empty()
    } else {
        blocks[from].txs + payload(blocks, from + 1)
    }
}

/// The first rule that `blocks`, laid out in chunks of `sizes` in the batch
/// `id`, break, if any: numbers follow one another, the totals stay under
/// their ceilings, nonces follow the counter.
pub open spec fn broken_rule(id: u64, sizes: Seq<u8>, blocks: Seq<BlockView>) -> Option<
    BatchErrorView,
> {
    match first_gap(blocks, 1) {
        Some(k) => Some(BatchErrorView::InvalidBlockNumbers(spec_u64_to_le_bytes(blocks[k].number))),
        None => if total_l1_txs(blocks, blocks.len() as int) > MAX_L1_TXS {
            Some(BatchErrorView::NumL1TxTooLarge)
        } else if total_txs(blocks, blocks.len() as int) > MAX_TXS {
            Some(BatchErrorView::NumTxTooLarge)
        } else {
            match first_bad_nonce(blocks, 1) {
                Some(k) => Some(
                    BatchErrorView::InvalidL1Nonce {
                        expect: next_nonce(blocks[k - 1]),
                        current: blocks[k].l1_nonce,
                        batch_id: id,
                        chunk_id: place(sizes, k).0,
                        block_id: place(sizes, k).1,
                        tx_hash: keccak256_spec(blocks[k].txs),
                    },
                ),
                None => None,
            }
        },
    }
}

/// The first rule that the blocks of `b` break, if any.
pub open spec fn violation(b: BatchView) -> Option<BatchErrorView> {
    broken_rule(b.id, b.sizes, b.blocks)
}

/// Whether the chunks of `b` are laid out as a batch's must be: a known
/// version, between one chunk and the version's maximum, no empty chunk, as
/// many blocks as the chunks count, and in each block no more transaction
/// bytes than a length field can tell.
pub open spec fn well_laid(b: BatchView) -> bool {
    &&& b.version <= MAX_VERSION
    &&& 1 <= b.sizes.len() <= max_chunks(b.version)
    &&& forall|c: int| 0 <= c < b.sizes.len() ==> #[trigger] b.sizes[c] >= MIN_LAST_CHUNK_BLOCKS
    &&& blocks_in(b.sizes, 0) == b.blocks.len()
    &&& forall|k: int| 0 <= k < b.blocks.len() ==> (#[trigger] b.blocks[k]).txs.len() <= u64::MAX
}

/// `b` with the commitment that its version asks for, or why it cannot be a
/// batch. A failure of the commitment stands in the frame of the encoding.
pub open spec fn sealed(b: BatchView) -> Result<BatchView, BatchErrorView> {
    match violation(b) {
        Some(e) => Err(e),
        None => match commitment_for(b.version, payload(b.blocks, 0)) {
            Err(e) => Err(BatchErrorView::EncodeBatchChunk(Box::new(e))),
            Ok(c) => Ok(
                BatchView {
                    id: b.id,
                    version: b.version,
                    sizes: b.sizes,
                    blocks: b.blocks,
                    commitment: c,
                },
            ),
        },
    }
}

/// What decoding calldata `d` gives. Every failure stands in the frame of
/// the parse.
pub open spec fn decode(d: Seq<u8>) -> Result<BatchView, BatchErrorView> {
    match parse(d) {
        Err(e) => Err(BatchErrorView::ParseBatchTaskFromCalldata(Box::new(e))),
        Ok(b) => match sealed(b) {
            Err(e) => Err(BatchErrorView::ParseBatchTaskFromCalldata(Box::new(e))),
            Ok(s) => Ok(s),
        },
    }
}

/// Whether `b` is a batch: well laid out, breaking no rule, and carrying the
/// commitment of its version to its payload.
pub open spec fn is_batch(b: BatchView) -> bool {
    well_laid(b) && sealed(b) == Ok::<BatchView, BatchErrorView>(b)
}

/// The sizes of the chunks `c..`, cut after their first `m` blocks.
pub open spec fn cut_sizes(sizes: Seq<u8>, c: int, m: int) -> Seq<u8>
    decreases sizes.len() - c,
{
    if c < 0 || c >= sizes.len() || m <= 0 {
        Seq::empty()
    } else if m <= sizes[c] {
        seq![m as u8]
    } else {
        seq![sizes[c]] + cut_sizes(sizes, c + 1, m - sizes[c])
    }
}

/// The (chunk, block in chunk) position in `sizes` of flat position `k`, as
/// errors report it.
pub open spec fn place(sizes: Seq<u8>, k: int) -> (usize, usize) {
    (clip(position(sizes, 0, k).0), clip(position(sizes, 0, k).1))
}

/// Why the first block from `i` on that does not fit the batch `t` fails to:
/// the batch does not hold its number, holds it at another position, or the
/// block belongs to another version than `version`.
pub open spec fn first_misfit(
    t: BatchView,
    version: u8,
    blocks: Seq<BlockView>,
    versions: Seq<u8>,
    i: int,
) -> Option<BatchErrorView>
    decreases blocks.len() - i,
{
    if i < 0 || i >= blocks.len() {
        None
    } else if blocks[i].number < t.blocks[0].number || blocks[i].number > t.blocks.last().number {
        Some(BatchErrorView::UnknownBlock)
    } else if blocks[i].number - t.blocks[0].number != i {
        Some(
            BatchErrorView::UnexpectedBlock {
                want: place(t.sizes, i),
                got: place(t.sizes, blocks[i].number - t.blocks[0].number),
            },
        )
    } else if versions[i] != version {
        Some(
            BatchErrorView::MismatchBatchVersionAndBlock {
                block_batch_version: versions[i],
                parent_batch_version: version,
            },
        )
    } else {
        first_misfit(t, version, blocks, versions, i + 1)
    }
}

/// The batch of `version` built from `blocks`, which belong to the versions
/// `versions`, along the chunks of the batch `t`: block by block at the
/// position that `t` has it, in as many of the chunks of `t` as the blocks
/// fill. A block that does not fit fails in the frame of the chunk layout.
pub open spec fn build(t: BatchView, version: u8, blocks: Seq<BlockView>, versions: Seq<u8>)
    -> Result<BatchView, BatchErrorView> {
    if version > MAX_VERSION {
        Err(BatchErrorView::UnknownBatchVersion(version))
    } else if blocks.len() == 0 {
        Err(BatchErrorView::MissingChunks)
    } else {
        match first_misfit(t, version, blocks, versions, 0) {
            Some(e) => Err(BatchErrorView::BuildChunkHash(Box::new(e))),
            None => if cut_sizes(t.sizes, 0, blocks.len() as int).len() > max_chunks(version) {
                Err(BatchErrorView::TooManyChunks { max: max_chunks(version) as usize })
            } else {
                sealed(
                    BatchView {
                        id: t.id,
                        version,
                        sizes: cut_sizes(t.sizes, 0, blocks.len() as int),
                        blocks,
                        commitment: Seq::empty(),
                    },
                )
            },
        }
    }
}

/// The digests of the chunks `c..`, one after the other.
pub open spec fn chunk_hashes(sizes: Seq<u8>, blocks: Seq<BlockView>, c: int, from: int) -> Seq<u8>
    decreases sizes.len() - c,
{
    if c < 0 || c >= sizes.len() {
        Seq::empty()
    } else {
        keccak256_spec(encode_chunk(blocks, from, sizes[c])) + chunk_hashes(
            sizes,
            blocks,
            c + 1,
            from + sizes[c],
        )
    }
}

/// The bytes whose digest is the hash of `b`: version, id, the digest of the
/// chunks' digests, and the commitment.
pub open spec fn hash_preimage(b: BatchView) -> Seq<u8> {
    seq![b.version] + spec_u64_to_le_bytes(b.id) + keccak256_spec(
        chunk_hashes(b.sizes, b.blocks, 0, 0),
    ) + b.commitment
}

/// The hash of `b`.
pub open spec fn batch_hash(b: BatchView) -> Seq<u8> {
    keccak256_spec(hash_preimage(b))
}

/// Putting a chunk in front moves every later chunk up by one.
pub proof fn lemma_blocks_in_shift(n: u8, sizes: Seq<u8>, c: int)
    requires
        0 <= c <= sizes.len(),
    ensures
        blocks_in(seq![n] + sizes, c + 1) == blocks_in(sizes, c),
    decreases sizes.len() - c,
{
    let s = seq![n] + sizes;
    if c < sizes.len() {
        assert(s[c + 1] == sizes[c]);
        lemma_blocks_in_shift(n, sizes, c + 1);
    }
}

/// A count of blocks is not negative.
pub proof fn lemma_blocks_in_nonneg(sizes: Seq<u8>, c: int)
    ensures
        blocks_in(sizes, c) >= 0,
    decreases sizes.len() - c,
{
    if 0 <= c < sizes.len() {
        lemma_blocks_in_nonneg(sizes, c + 1);
    }
}

} // verus!
