//! Reading the structure of a batch out of calldata.

use crate::error::BatchError;
use crate::layout::{
    blocks_in, decode_block, decode_blocks, decode_chunks, le16_at, le64_at, lemma_blocks_in_shift,
    max_chunks, parse, prepend_blocks, prepend_chunks, well_laid, BatchView, BlockView,
    BLOCK_FIXED_LEN, HEADER_LEN, MAX_VERSION, MIN_LAST_CHUNK_BLOCKS,
};
use vstd::bytes::{u16_from_le_bytes, u64_from_le_bytes};
use vstd::prelude::*;
use vstd::slice::{slice_subrange, slice_to_vec};

verus! {

/// One block of a batch.
#[derive(Debug, Clone, PartialEq, Eq)]
pub struct Block {
    /// The block's number.
    pub number: u64,
    /// The block's timestamp.
    pub timestamp: u64,
    /// The L1 message counter at the start of the block.
    pub l1_nonce: u64,
    /// Transactions in the block.
    pub num_txs: u16,
    /// L1-originated transactions among them.
    pub num_l1_txs: u16,
    /// The block's transactions, as raw bytes.
    pub txs: Vec<u8>,
}

impl View for Block {
    type V = BlockView;

    open spec fn view(&self) -> BlockView {
        BlockView {
            number: self.number,
            timestamp: self.timestamp,
            l1_nonce: self.l1_nonce,
            num_txs: self.num_txs,
            num_l1_txs: self.num_l1_txs,
            txs: self.txs@,
        }
    }
}

/// The views of the blocks of `s`, in order.
pub open spec fn block_views(s: Seq<Block>) -> Seq<BlockView> {
    Seq::new(s.len(), |i: int| s[i]@)
}

/// Most chunks in a batch of `version`.
pub fn max_chunks_of(version: u8) -> (r: usize)
    ensures
        r == max_chunks(version),
{
    if version <= 1 {
        15
    } else {
        45
    }
}

fn read_u64(data: &[u8], off: usize, at: usize) -> (r: u64)
    requires
        off + at + 8 <= data@.len(),
    ensures
        r == le64_at(data@.skip(off as int), at as int),
{
    let len = data.len();
    assert(data@.subrange(off + at, off + at + 8) =~= data@.skip(off as int).subrange(
        at as int,
        at + 8,
    ));
    u64_from_le_bytes(slice_subrange(data, off + at, off + at + 8))
}

fn read_u16(data: &[u8], off: usize, at: usize) -> (r: u16)
    requires
        off + at + 2 <= data@.len(),
    ensures
        r == le16_at(data@.skip(off as int), at as int),
{
    let len = data.len();
    assert(data@.subrange(off + at, off + at + 2) =~= data@.skip(off as int).subrange(
        at as int,
        at + 2,
    ));
    u16_from_le_bytes(slice_subrange(data, off + at, off + at + 2))
}

/// Reads the block record that starts at `data[off]`; returns the block and
/// the offset after its record.
pub(crate) fn parse_block(data: &[u8], off: usize) -> (r: Option<(Block, usize)>)
    requires
        off <= data@.len(),
    ensures
        match decode_block(data@.skip(off as int)) {
            None => r is None,
            Some((b, k)) => {
                &&& r is Some
                &&& r->Some_0.0@ == b
                &&& r->Some_0.1 == off + k
                &&& r->Some_0.1 <= data@.len()
            },
        },
{
    let len = data.len();
    if len - off < BLOCK_FIXED_LEN {
        return None;
    }
    let number = read_u64(data, off, 0);
    let timestamp = read_u64(data, off, 8);
    let l1_nonce = read_u64(data, off, 16);
    let num_txs = read_u16(data, off, 24);
    let num_l1_txs = read_u16(data, off, 26);
    let tx_len = read_u64(data, off, 28);
    if ((len - off - BLOCK_FIXED_LEN) as u64) < tx_len {
        return None;
    }
    let from = off + BLOCK_FIXED_LEN;
    let to = from + tx_len as usize;
    let txs = slice_to_vec(slice_subrange(data, from, to));
    assert(data@.subrange(from as int, to as int) =~= data@.skip(off as int).subrange(
        36,
        36 + tx_len,
    ));
    Some((Block { number, timestamp, l1_nonce, num_txs, num_l1_txs, txs }, to))
}

/// Reads `n` block records from `data[start]` on and appends the blocks to
/// `blocks`. Returns the offset after the last record, or the offset of the
/// record that is cut short.
pub(crate) fn parse_blocks(data: &[u8], start: usize, n: u8, blocks: &mut Vec<Block>) -> (r: Result<
    usize,
    usize,
>)
    requires
        start <= data@.len(),
    ensures
        match decode_blocks(data@.skip(start as int), n as nat) {
            Ok((bs, rest)) => {
                &&& r is Ok
                &&& start <= r->Ok_0 <= data@.len()
                &&& rest == data@.skip(r->Ok_0 as int)
                &&& block_views(final(blocks)@) == block_views(old(blocks)@) + bs
            },
            Err(bad) => {
                &&& r is Err
                &&& r->Err_0 <= data@.len()
                &&& bad == data@.skip(r->Err_0 as int)
            },
        },
{
    let ghost pre = block_views(blocks@);
    let ghost mut got: Seq<BlockView> = Seq::empty();
    let mut off = start;
    let mut k: u8 = 0;
    proof {
        let whole = decode_blocks(data@.skip(start as int), n as nat);
        match whole {
            Ok((bs, rest)) => {
                assert(got + bs =~= bs);
            },
            Err(_) => {},
        }
        assert(pre + got =~= pre);
    }
    while k < n
        invariant
            start <= off <= data@.len(),
            k <= n,
            block_views(blocks@) == pre + got,
            decode_blocks(data@.skip(start as int), n as nat) == prepend_blocks(
                got,
                decode_blocks(data@.skip(off as int), (n - k) as nat),
            ),
        decreases n - k,
    {
        match parse_block(data, off) {
            None => {
                return Err(off);
            },
            Some((b, next)) => {
                proof {
                    let d = data@.skip(off as int);
                    assert(d.skip(next - off) =~= data@.skip(next as int));
                    let tail = decode_blocks(data@.skip(next as int), (n - k - 1) as nat);
                    match tail {
                        Ok((bs, rest)) => {
                            assert(got + (seq![b@] + bs) =~= got.push(b@) + bs);
                        },
                        Err(_) => {},
                    }
                    assert(block_views(blocks@.push(b)) =~= (pre + got).push(b@));
                    assert((pre + got).push(b@) =~= pre + got.push(b@));
                    got = got.push(b@);
                }
                blocks.push(b);
                off = next;
                k += 1;
            },
        }
    }
    assert(got + Seq::<BlockView>::empty() =~= got);
    Ok(off)
}

/// Reads `count` chunks from `data[HEADER_LEN]` on into `sizes` and `blocks`.
/// Returns the offset after the last chunk.
pub(crate) fn parse_chunks(
    data: &[u8],
    count: u8,
    version: u8,
    sizes: &mut Vec<u8>,
    blocks: &mut Vec<Block>,
) -> (r: Result<usize, BatchError>)
    requires
        data@.len() >= HEADER_LEN,
        old(sizes)@.len() == 0,
        old(blocks)@.len() == 0,
    ensures
        match decode_chunks(
            data@.skip(HEADER_LEN as int),
            count as nat,
            version,
            data@.len(),
        ) {
            Ok((sz, bl, rest)) => {
                &&& r is Ok
                &&& r->Ok_0 <= data@.len()
                &&& rest == data@.skip(r->Ok_0 as int)
                &&& final(sizes)@ == sz
                &&& block_views(final(blocks)@) == bl
            },
            Err(e) => r is Err && r->Err_0@ == e,
        },
{
    let len = data.len();
    let mut off: usize = HEADER_LEN;
    let mut c: u8 = 0;
    proof {
        let whole = decode_chunks(
            data@.skip(HEADER_LEN as int),
            count as nat,
            version,
            data@.len(),
        );
        match whole {
            Ok((sz, bl, rest)) => {
                assert(sizes@ + sz =~= sz);
                assert(block_views(blocks@) + bl =~= bl);
            },
            Err(_) => {},
        }
    }
    while c < count
        invariant
            len == data@.len(),
            HEADER_LEN <= off <= len,
            c <= count,
            decode_chunks(data@.skip(HEADER_LEN as int), count as nat, version, data@.len())
                == prepend_chunks(
                sizes@,
                block_views(blocks@),
                decode_chunks(data@.skip(off as int), (count - c) as nat, version, data@.len()),
            ),
        decreases count - c,
    {
        let ghost d = data@.skip(off as int);
        if off == len {
            return Err(
                BatchError::InvalidDABatchData {
                    version,
                    want_at_least: len.saturating_add(1),
                    got: len,
                },
            );
        }
        let n = data[off];
        assert(d[0] == n);
        if n < MIN_LAST_CHUNK_BLOCKS {
            if count - c == 1 {
                return Err(BatchError::TooFewBlocksInLastChunk);
            } else {
                return Err(BatchError::InvalidNumBlock(0));
            }
        }
        if len - off - 1 < n as usize * BLOCK_FIXED_LEN {
            return Err(BatchError::InvalidNumBlock(n as usize));
        }
        assert(d.skip(1) =~= data@.skip(off + 1));
        let ghost old_sizes = sizes@;
        let ghost old_blocks = block_views(blocks@);
        match parse_blocks(data, off + 1, n, blocks) {
            Err(bad) => {
                let rest = slice_to_vec(slice_subrange(data, bad, len));
                assert(rest@ =~= data@.skip(bad as int));
                return Err(BatchError::InvalidBlockBytes(rest));
            },
            Ok(next) => {
                proof {
                    let got = decode_blocks(d.skip(1), n as nat);
                    let bs = got->Ok_0.0;
                    let tail = decode_chunks(
                        data@.skip(next as int),
                        (count - c - 1) as nat,
                        version,
                        data@.len(),
                    );
                    match tail {
                        Ok((sz, bl, rest)) => {
                            assert(old_sizes + (seq![n] + sz) =~= old_sizes.push(n) + sz);
                            assert(old_blocks + (bs + bl) =~= (old_blocks + bs) + bl);
                        },
                        Err(_) => {},
                    }
                }
                sizes.push(n);
                off = next;
                c += 1;
            },
        }
    }
    proof {
        assert(sizes@ + Seq::<u8>::empty() =~= sizes@);
        assert(block_views(blocks@) + Seq::<BlockView>::empty() =~= block_views(blocks@));
    }
    Ok(off)
}

/// What [`parse_calldata`] hands back: the fields of a batch that has no
/// commitment yet.
pub struct Parsed {
    pub id: u64,
    pub version: u8,
    pub sizes: Vec<u8>,
    pub blocks: Vec<Block>,
}

impl View for Parsed {
    type V = BatchView;

    open spec fn view(&self) -> BatchView {
        BatchView {
            id: self.id,
            version: self.version,
            sizes: self.sizes@,
            blocks: block_views(self.blocks@),
            commitment: Seq::empty(),
        }
    }
}

/// Reads the structure of a batch out of `data`.
pub fn parse_calldata(data: &[u8]) -> (r: Result<Parsed, BatchError>)
    ensures
        match parse(data@) {
            Ok(b) => r is Ok && r->Ok_0@ == b,
            Err(e) => r is Err && r->Err_0@ == e,
        },
{
    let len = data.len();
    if len == 0 {
        return Err(BatchError::InvalidDABatchData { version: 0, want_at_least: 1, got: 0 });
    }
    let version = data[0];
    if version > MAX_VERSION {
        return Err(BatchError::UnknownBatchVersion(version));
    }
    if len < HEADER_LEN {
        return Err(
            BatchError::InvalidDABatchData { version, want_at_least: HEADER_LEN, got: len },
        );
    }
    let count = data[9];
    if count == 0 {
        return Err(BatchError::MissingChunks);
    }
    let max = max_chunks_of(version);
    if count as usize > max {
        return Err(BatchError::TooManyChunks { max });
    }
    assert(data@.skip(0) =~= data@);
    let id = read_u64(data, 0, 1);
    let mut sizes: Vec<u8> = Vec::new();
    let mut blocks: Vec<Block> = Vec::new();
    match parse_chunks(data, count, version, &mut sizes, &mut blocks) {
        Err(e) => Err(e),
        Ok(end) => {
            if end < len {
                let rest = slice_to_vec(slice_subrange(data, end, len));
                assert(rest@ =~= data@.skip(end as int));
                Err(BatchError::InvalidBlockBytes(rest))
            } else {
                Ok(Parsed { id, version, sizes, blocks })
            }
        },
    }
}

/// `n` blocks decoded are `n` blocks.
pub proof fn lemma_decode_blocks_len(d: Seq<u8>, n: nat)
    requires
        decode_blocks(d, n) is Ok,
    ensures
        decode_blocks(d, n)->Ok_0.0.len() == n,
        forall|k: int|
            0 <= k < n ==> (#[trigger] decode_blocks(d, n)->Ok_0.0[k]).txs.len() <= u64::MAX,
    decreases n,
{
    if n > 0 {
        let k = decode_block_len(d);
        lemma_decode_blocks_len(d.skip(k), (n - 1) as nat);
        let b = decode_block(d)->Some_0.0;
        let tail = decode_blocks(d.skip(k), (n - 1) as nat)->Ok_0.0;
        let all = decode_blocks(d, n)->Ok_0.0;
        assert(all =~= seq![b] + tail);
        assert forall|j: int| 0 <= j < n implies (#[trigger] all[j]).txs.len() <= u64::MAX by {
            if j > 0 {
                assert(all[j] == tail[j - 1]);
            }
        }
    }
}

/// Length of the record that starts `d`, where there is one.
pub open spec fn decode_block_len(d: Seq<u8>) -> int {
    decode_block(d)->Some_0.1 as int
}

/// Chunks that decode are as many as were asked for, none is empty, and
/// together they count the blocks that were decoded.
pub proof fn lemma_decode_chunks_shape(d: Seq<u8>, count: nat, version: u8, total: nat)
    requires
        decode_chunks(d, count, version, total) is Ok,
    ensures
        decode_chunks(d, count, version, total)->Ok_0.0.len() == count,
        forall|c: int|
            0 <= c < count ==> #[trigger] decode_chunks(d, count, version, total)->Ok_0.0[c] >= 1,
        blocks_in(decode_chunks(d, count, version, total)->Ok_0.0, 0) == decode_chunks(
            d,
            count,
            version,
            total,
        )->Ok_0.1.len(),
        forall|k: int|
            0 <= k < decode_chunks(d, count, version, total)->Ok_0.1.len() ==> (
            #[trigger] decode_chunks(d, count, version, total)->Ok_0.1[k]).txs.len() <= u64::MAX,
    decreases count,
{
    if count > 0 {
        let n = d[0];
        let got = decode_blocks(d.skip(1), n as nat);
        let bs = got->Ok_0.0;
        let rest = got->Ok_0.1;
        lemma_decode_blocks_len(d.skip(1), n as nat);
        lemma_decode_chunks_shape(rest, (count - 1) as nat, version, total);
        let tail = decode_chunks(rest, (count - 1) as nat, version, total)->Ok_0;
        let sizes = seq![n] + tail.0;
        lemma_blocks_in_shift(n, tail.0, 0);
        assert(sizes[0] == n);
        assert forall|c: int| 0 <= c < count implies #[trigger] sizes[c] >= 1 by {
            if c > 0 {
                assert(sizes[c] == tail.0[c - 1]);
            }
        }
        let all = bs + tail.1;
        assert forall|k: int| 0 <= k < all.len() implies (#[trigger] all[k]).txs.len()
            <= u64::MAX by {
            if k < bs.len() {
                assert(all[k] == bs[k]);
            } else {
                assert(all[k] == tail.1[k - bs.len()]);
            }
        }
    }
}

/// Calldata that parses is well laid out.
pub proof fn lemma_parsed_is_well_laid(d: Seq<u8>)
    requires
        parse(d) is Ok,
    ensures
        well_laid(parse(d)->Ok_0),
{
    lemma_decode_chunks_shape(d.skip(10), d[9] as nat, d[0], d.len());
}

} // verus!
