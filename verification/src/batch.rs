//! The batch task: a decoded or locally built batch, always a valid one.

use crate::assemble::{cut, lay_out, lemma_cut_sizes, lemma_fits, lemma_numbers_without_gap};
use crate::commit::{commit, keccak256};
use crate::context::{context_blocks, context_versions, PobContext};
use crate::encode::{append_chunks, append_digest, hash_chunks};
use crate::error::BatchError;
use crate::layout::{
    batch_hash, build, decode, encode, hash_preimage, is_batch, sealed, well_laid, BatchView,
    MAX_VERSION,
};
use crate::parse::{
    block_views, lemma_parsed_is_well_laid, max_chunks_of, parse_calldata, Block, Parsed,
};
use crate::primitives::B256;
use crate::rules::{check_rules, lemma_well_laid_has_blocks, payload_of};
use vstd::bytes::u64_to_le_bytes;
use vstd::prelude::*;

verus! {

/// A batch: its id, its version, its blocks in their chunks, and the
/// commitment to its payload. Every value of this type is a valid batch.
#[derive(Debug)]
pub struct BatchTask {
    pub(crate) id: u64,
    pub(crate) version: u8,
    pub(crate) sizes: Vec<u8>,
    pub(crate) blocks: Vec<Block>,
    pub(crate) commitment: Vec<u8>,
}

impl View for BatchTask {
    type V = BatchView;

    closed spec fn view(&self) -> BatchView {
        BatchView {
            id: self.id,
            version: self.version,
            sizes: self.sizes@,
            blocks: block_views(self.blocks@),
            commitment: self.commitment@,
        }
    }
}

impl BatchTask {
    /// What every value of the type keeps.
    #[verifier::type_invariant]
    spec fn valid(self) -> bool {
        is_batch(self@)
    }

    /// Checks the rules on a well laid out structure and commits to its
    /// payload.
    pub(crate) fn seal(p: Parsed) -> (r: Result<BatchTask, BatchError>)
        requires
            well_laid(p@),
        ensures
            match sealed(p@) {
                Ok(b) => r is Ok && r->Ok_0@ == b && is_batch(b),
                Err(e) => r is Err && r->Err_0@ == e,
            },
    {
        let Parsed { id, version, sizes, blocks } = p;
        match check_rules(id, &sizes, &blocks) {
            Err(e) => {
                return Err(e);
            },
            Ok(()) => {},
        }
        let data = payload_of(&blocks);
        match commit(version, data.as_slice()) {
            Err(e) => Err(BatchError::EncodeBatchChunk(Box::new(e))),
            Ok(commitment) => Ok(BatchTask { id, version, sizes, blocks, commitment }),
        }
    }

    /// Decodes a committed batch. The whole call fails on the first thing
    /// that is wrong: no part of a batch is ever returned.
    pub fn from_calldata(data: &[u8]) -> (r: Result<BatchTask, BatchError>)
        ensures
            match decode(data@) {
                Ok(b) => r is Ok && r->Ok_0@ == b && is_batch(b),
                Err(e) => r is Err && r->Err_0@ == e,
            },
    {
        match parse_calldata(data) {
            Err(e) => Err(BatchError::ParseBatchTaskFromCalldata(Box::new(e))),
            Ok(p) => {
                proof {
                    lemma_parsed_is_well_laid(data@);
                }
                match BatchTask::seal(p) {
                    Err(e) => Err(BatchError::ParseBatchTaskFromCalldata(Box::new(e))),
                    Ok(b) => Ok(b),
                }
            },
        }
    }

    /// The batch's identifier.
    pub fn id(&self) -> (r: u64)
        ensures
            r == self@.id,
    {
        self.id
    }

    /// The batch's version.
    pub fn version(&self) -> (r: u8)
        ensures
            r == self@.version,
    {
        self.version
    }

    /// Number of chunks.
    pub fn num_chunks(&self) -> (r: usize)
        ensures
            r == self@.sizes.len(),
    {
        self.sizes.len()
    }

    /// Number of blocks in chunk `c`, and 0 where there is no such chunk.
    pub fn chunk_len(&self, c: usize) -> (r: usize)
        ensures
            r == if c < self@.sizes.len() {
                self@.sizes[c as int] as usize
            } else {
                0usize
            },
    {
        if c < self.sizes.len() {
            self.sizes[c] as usize
        } else {
            0
        }
    }

    /// The blocks, in order.
    pub fn blocks(&self) -> (r: &Vec<Block>)
        ensures
            block_views(r@) == self@.blocks,
            is_batch(self@),
    {
        proof {
            use_type_invariant(self);
        }
        &self.blocks
    }

    /// The commitment to the payload; empty where the version commits none.
    pub fn commitment(&self) -> (r: &Vec<u8>)
        ensures
            r@ == self@.commitment,
    {
        &self.commitment
    }

    /// Builds the batch of `version` that the blocks of `ctxs` make when laid
    /// out along the chunks of this batch, as if they had been committed.
    pub fn build_batch(&self, version: u8, ctxs: &[PobContext]) -> (r: Result<
        BatchTask,
        BatchError,
    >)
        ensures
            is_batch(self@),
            match build(self@, version, context_blocks(ctxs@), context_versions(ctxs@)) {
                Ok(b) => r is Ok && r->Ok_0@ == b && is_batch(b),
                Err(e) => r is Err && r->Err_0@ == e,
            },
    {
        proof {
            use_type_invariant(self);
            lemma_well_laid_has_blocks(self@);
        }
        if version > MAX_VERSION {
            return Err(BatchError::UnknownBatchVersion(version));
        }
        if ctxs.len() == 0 {
            return Err(BatchError::MissingChunks);
        }
        let total = self.blocks.len();
        let start = self.blocks[0].number;
        let end = self.blocks[total - 1].number;
        let blocks = match lay_out(Ghost(self@), &self.sizes, start, end, version, ctxs) {
            Err(e) => {
                return Err(BatchError::BuildChunkHash(Box::new(e)));
            },
            Ok(b) => b,
        };
        let sizes = cut(&self.sizes, blocks.len());
        let max = max_chunks_of(version);
        if sizes.len() > max {
            return Err(BatchError::TooManyChunks { max });
        }
        proof {
            let cb = context_blocks(ctxs@);
            let cv = context_versions(ctxs@);
            let m = cb.len() as int;
            assert(block_views(blocks@).len() == m);
            lemma_fits(self@, version, cb, cv, 0, m - 1);
            lemma_numbers_without_gap(self@.blocks, total - 1);
            lemma_cut_sizes(self@.sizes, 0, m);
            assert forall|k: int| 0 <= k < blocks@.len() implies (#[trigger] block_views(
                blocks@,
            )[k]).txs.len() <= u64::MAX by {
                assert(blocks@[k].txs@.len() == blocks@[k].txs.len());
            }
        }
        BatchTask::seal(Parsed { id: self.id, version, sizes, blocks })
    }

    /// The batch in its committed form.
    pub fn encode(&self) -> (r: Vec<u8>)
        ensures
            r@ == encode(self@),
            is_batch(self@),
    {
        proof {
            use_type_invariant(self);
        }
        let mut out: Vec<u8> = Vec::new();
        out.push(self.version);
        let id = u64_to_le_bytes(self.id);
        out.extend_from_slice(id.as_slice());
        out.push(self.sizes.len() as u8);
        let ghost head = out@;
        append_chunks(&mut out, &self.sizes, &self.blocks);
        assert(out@ =~= encode(self@));
        out
    }

    /// The batch's hash: the digest of its version, its id, the digest of its
    /// chunks' digests, and its commitment.
    pub fn hash(&self) -> (r: B256)
        ensures
            r@ == batch_hash(self@),
            is_batch(self@),
    {
        proof {
            use_type_invariant(self);
        }
        let hashes = hash_chunks(&self.sizes, &self.blocks);
        let data_hash = keccak256(hashes.as_slice());
        let mut pre: Vec<u8> = Vec::new();
        pre.push(self.version);
        let id = u64_to_le_bytes(self.id);
        pre.extend_from_slice(id.as_slice());
        append_digest(&mut pre, &data_hash);
        pre.extend_from_slice(self.commitment.as_slice());
        assert(pre@ =~= hash_preimage(self@));
        keccak256(pre.as_slice())
    }

    /// Number of the first block.
    pub fn start(&self) -> (r: Option<u64>)
        ensures
            self@.blocks.len() > 0,
            r == Some(self@.blocks[0].number),
    {
        proof {
            use_type_invariant(self);
            lemma_well_laid_has_blocks(self@);
        }
        Some(self.blocks[0].number)
    }

    /// Number of the last block.
    pub fn end(&self) -> (r: Option<u64>)
        ensures
            self@.blocks.len() > 0,
            r == Some(self@.blocks[self@.blocks.len() - 1].number),
    {
        proof {
            use_type_invariant(self);
            lemma_well_laid_has_blocks(self@);
        }
        Some(self.blocks[self.blocks.len() - 1].number)
    }
}

} // verus!
