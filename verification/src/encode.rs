//! Writing a batch in its committed form, and the digests over it.

use crate::commit::keccak256;
use crate::layout::{
    blocks_in, chunk_hashes, encode_block, encode_blocks, encode_chunk, encode_chunks,
    lemma_blocks_in_nonneg,
};
use crate::parse::{block_views, Block};
use crate::primitives::B256;
use vstd::bytes::{u16_to_le_bytes, u64_to_le_bytes};
use vstd::prelude::*;

verus! {

/// Appends the bytes of `h` to `out`.
pub fn append_digest(out: &mut Vec<u8>, h: &B256)
    ensures
        final(out)@ == old(out)@ + h@,
{
    let ghost start = out@;
    let mut i: usize = 0;
    while i < 32
        invariant
            i <= 32,
            out@ == start + h@.subrange(0, i as int),
        decreases 32 - i,
    {
        out.push(h.bytes[i]);
        assert(out@ =~= start + h@.subrange(0, i + 1));
        i += 1;
    }
    assert(h@.subrange(0, 32) =~= h@);
}

/// Appends the record of `b` to `out`.
pub fn append_block(out: &mut Vec<u8>, b: &Block)
    ensures
        final(out)@ == old(out)@ + encode_block(b@),
{
    let ghost start = out@;
    let number = u64_to_le_bytes(b.number);
    let timestamp = u64_to_le_bytes(b.timestamp);
    let l1_nonce = u64_to_le_bytes(b.l1_nonce);
    let num_txs = u16_to_le_bytes(b.num_txs);
    let num_l1_txs = u16_to_le_bytes(b.num_l1_txs);
    let tx_len = u64_to_le_bytes(b.txs.len() as u64);
    out.extend_from_slice(number.as_slice());
    out.extend_from_slice(timestamp.as_slice());
    out.extend_from_slice(l1_nonce.as_slice());
    out.extend_from_slice(num_txs.as_slice());
    out.extend_from_slice(num_l1_txs.as_slice());
    out.extend_from_slice(tx_len.as_slice());
    out.extend_from_slice(b.txs.as_slice());
    assert(out@ =~= start + encode_block(b@));
}

/// Appends to `out` the bytes of the chunk of `n` blocks that starts at
/// `blocks[from]`.
pub(crate) fn append_chunk(out: &mut Vec<u8>, blocks: &Vec<Block>, from: usize, n: u8)
    requires
        from + n <= blocks@.len(),
    ensures
        final(out)@ == old(out)@ + encode_chunk(block_views(blocks@), from as int, n),
{
    let ghost start = out@;
    let ghost bv = block_views(blocks@);
    let total = blocks.len();
    out.push(n);
    let mut k: u8 = 0;
    assert(out@ + encode_blocks(bv, from as int, n as nat) =~= start + encode_chunk(
        bv,
        from as int,
        n,
    ));
    while k < n
        invariant
            k <= n,
            from + n <= blocks@.len(),
            total == blocks@.len(),
            bv == block_views(blocks@),
            out@ + encode_blocks(bv, from + k, (n - k) as nat) == start + encode_chunk(
                bv,
                from as int,
                n,
            ),
        decreases n - k,
    {
        let ghost before = out@;
        append_block(out, &blocks[from + k as usize]);
        assert((before + encode_block(bv[from + k])) + encode_blocks(
            bv,
            from + k + 1,
            (n - k - 1) as nat,
        ) =~= before + (encode_block(bv[from + k]) + encode_blocks(
            bv,
            from + k + 1,
            (n - k - 1) as nat,
        )));
        k += 1;
    }
    assert(out@ + encode_blocks(bv, from + n, 0) =~= out@);
}

/// Appends to `out` the bytes of all chunks.
pub(crate) fn append_chunks(out: &mut Vec<u8>, sizes: &Vec<u8>, blocks: &Vec<Block>)
    requires
        blocks_in(sizes@, 0) == blocks@.len(),
    ensures
        final(out)@ == old(out)@ + encode_chunks(sizes@, block_views(blocks@), 0, 0),
{
    let ghost start = out@;
    let ghost bv = block_views(blocks@);
    let total = blocks.len();
    let mut c: usize = 0;
    let mut from: usize = 0;
    while c < sizes.len()
        invariant
            c <= sizes@.len(),
            total == blocks@.len(),
            bv == block_views(blocks@),
            from + blocks_in(sizes@, c as int) == blocks@.len(),
            out@ + encode_chunks(sizes@, bv, c as int, from as int) == start + encode_chunks(
                sizes@,
                bv,
                0,
                0,
            ),
        decreases sizes@.len() - c,
    {
        let n = sizes[c];
        proof {
            lemma_blocks_in_nonneg(sizes@, c + 1);
        }
        let ghost before = out@;
        append_chunk(out, blocks, from, n);
        assert((before + encode_chunk(bv, from as int, n)) + encode_chunks(
            sizes@,
            bv,
            c + 1,
            from + n,
        ) =~= before + (encode_chunk(bv, from as int, n) + encode_chunks(
            sizes@,
            bv,
            c + 1,
            from + n,
        )));
        from = from + n as usize;
        c += 1;
    }
    assert(out@ + encode_chunks(sizes@, bv, c as int, from as int) =~= out@);
}

/// The digests of all chunks, one after the other.
pub(crate) fn hash_chunks(sizes: &Vec<u8>, blocks: &Vec<Block>) -> (r: Vec<u8>)
    requires
        blocks_in(sizes@, 0) == blocks@.len(),
    ensures
        r@ == chunk_hashes(sizes@, block_views(blocks@), 0, 0),
{
    let ghost bv = block_views(blocks@);
    let total = blocks.len();
    let mut out: Vec<u8> = Vec::new();
    let mut c: usize = 0;
    let mut from: usize = 0;
    assert(out@ + chunk_hashes(sizes@, bv, 0, 0) =~= chunk_hashes(sizes@, bv, 0, 0));
    while c < sizes.len()
        invariant
            c <= sizes@.len(),
            total == blocks@.len(),
            bv == block_views(blocks@),
            from + blocks_in(sizes@, c as int) == blocks@.len(),
            out@ + chunk_hashes(sizes@, bv, c as int, from as int) == chunk_hashes(
                sizes@,
                bv,
                0,
                0,
            ),
        decreases sizes@.len() - c,
    {
        let n = sizes[c];
        proof {
            lemma_blocks_in_nonneg(sizes@, c + 1);
        }
        let mut chunk: Vec<u8> = Vec::new();
        append_chunk(&mut chunk, blocks, from, n);
        assert(chunk@ =~= encode_chunk(bv, from as int, n));
        let h = keccak256(chunk.as_slice());
        let ghost before = out@;
        append_digest(&mut out, &h);
        assert((before + h@) + chunk_hashes(sizes@, bv, c + 1, from + n) =~= before + (h@
            + chunk_hashes(sizes@, bv, c + 1, from + n)));
        from = from + n as usize;
        c += 1;
    }
    assert(out@ + chunk_hashes(sizes@, bv, c as int, from as int) =~= out@);
    out
}

} // verus!
