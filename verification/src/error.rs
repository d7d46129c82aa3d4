//! The errors of the codec and of the verifier.
//!
//! Each family is one enum of three tiers. Leaf kinds carry what is needed to
//! diagnose a violation. Wrapped kinds take in the failure of a collaborator
//! (compression, commitment, execution, the chain endpoint). Context frames
//! enclose another error of the family and say during which operation it
//! arose, so that an error that travels outward becomes a causal trace.
//!
//! Contracts speak of errors through their views, in which byte strings and
//! texts are sequences. The message of a compression or commitment failure
//! is what the collaborator printed.

use crate::primitives::B256;
use vstd::prelude::*;

verus! {

/// Why a compressed byte stream cannot be committed.
#[derive(Debug, Clone, PartialEq, Eq)]
pub enum DataCompatibilityError {
    /// The stream is shorter than any frame this system accepts.
    SizeTooSmall(Vec<u8>),
    /// The frame header byte is not the expected one.
    UnexpectedHeaderType(u8),
    /// A block of the frame is not a compressed block.
    UnexpectedBlkType { blk_ty: u8, blk_size: usize, is_last: bool },
    /// A block declares more bytes than the stream holds.
    WrongDataLen { len: usize, min: usize },
    /// The stream ends before a block marked last.
    UnexpectedEndBeforeLastBlock,
}

/// [`DataCompatibilityError`] over sequences.
pub enum DataCompatibilityErrorView {
    SizeTooSmall(Seq<u8>),
    UnexpectedHeaderType(u8),
    UnexpectedBlkType { blk_ty: u8, blk_size: usize, is_last: bool },
    WrongDataLen { len: usize, min: usize },
    UnexpectedEndBeforeLastBlock,
}

impl View for DataCompatibilityError {
    type V = DataCompatibilityErrorView;

    open spec fn view(&self) -> DataCompatibilityErrorView {
        match *self {
            DataCompatibilityError::SizeTooSmall(b) => DataCompatibilityErrorView::SizeTooSmall(b@),
            DataCompatibilityError::UnexpectedHeaderType(h) =>
                DataCompatibilityErrorView::UnexpectedHeaderType(h),
            DataCompatibilityError::UnexpectedBlkType { blk_ty, blk_size, is_last } =>
                DataCompatibilityErrorView::UnexpectedBlkType { blk_ty, blk_size, is_last },
            DataCompatibilityError::WrongDataLen { len, min } =>
                DataCompatibilityErrorView::WrongDataLen { len, min },
            DataCompatibilityError::UnexpectedEndBeforeLastBlock =>
                DataCompatibilityErrorView::UnexpectedEndBeforeLastBlock,
        }
    }
}

/// What can go wrong while a batch is decoded, built or hashed.
#[derive(Debug, PartialEq, Eq)]
#[allow(inconsistent_fields)]
pub enum BatchError {
    /// No codec is registered for this version tag.
    UnknownBatchVersion(u8),
    /// The payload is shorter than its version needs.
    InvalidDABatchData { version: u8, want_at_least: usize, got: usize },
    /// A block number does not follow its predecessor; holds that number's bytes.
    InvalidBlockNumbers(Vec<u8>),
    /// A block record is cut short or bytes are left over; holds those bytes.
    InvalidBlockBytes(Vec<u8>),
    /// A chunk declares a block count that its bytes cannot hold.
    InvalidNumBlock(usize),
    /// A block's L1 message nonce is not the running counter.
    InvalidL1Nonce {
        expect: u64,
        current: u64,
        batch_id: u64,
        chunk_id: usize,
        block_id: usize,
        tx_hash: B256,
    },
    /// A block belongs to another batch version than the batch built round it.
    MismatchBatchVersionAndBlock { block_batch_version: u8, parent_batch_version: u8 },
    /// More chunks than the version allows.
    TooManyChunks { max: usize },
    /// No chunk at all.
    MissingChunks,
    /// The last chunk holds fewer blocks than the minimum.
    TooFewBlocksInLastChunk,
    /// Too many L1-originated transactions in the batch.
    NumL1TxTooLarge,
    /// Too many transactions in the batch.
    NumTxTooLarge,
    /// The payload does not fit the commitment's capacity.
    OversizedBatchPayload { size: usize },
    /// The compression engine failed; holds what it printed.
    ZstdEncode(String),
    /// The commitment library failed; holds what it printed.
    KzgError(String),
    /// A context stands at another (chunk, block) position than the batch has it.
    UnexpectedBlock { want: (usize, usize), got: (usize, usize) },
    /// A context names a block that the batch does not hold.
    UnknownBlock,
    /// The compressed stream cannot be committed.
    ZstdDataCompatibility(DataCompatibilityError),
    /// Frame: while parsing a batch from calldata.
    ParseBatchTaskFromCalldata(Box<BatchError>),
    /// Frame: while encoding the chunks' payload for commitment.
    EncodeBatchChunk(Box<BatchError>),
    /// Frame: while laying contexts out into the chunks to be hashed.
    BuildChunkHash(Box<BatchError>),
}

/// [`BatchError`] over sequences.
#[allow(inconsistent_fields)]
pub enum BatchErrorView {
    UnknownBatchVersion(u8),
    InvalidDABatchData { version: u8, want_at_least: usize, got: usize },
    InvalidBlockNumbers(Seq<u8>),
    InvalidBlockBytes(Seq<u8>),
    InvalidNumBlock(usize),
    InvalidL1Nonce {
        expect: u64,
        current: u64,
        batch_id: u64,
        chunk_id: usize,
        block_id: usize,
        tx_hash: Seq<u8>,
    },
    MismatchBatchVersionAndBlock { block_batch_version: u8, parent_batch_version: u8 },
    TooManyChunks { max: usize },
    MissingChunks,
    TooFewBlocksInLastChunk,
    NumL1TxTooLarge,
    NumTxTooLarge,
    OversizedBatchPayload { size: usize },
    ZstdEncode(Seq<char>),
    KzgError(Seq<char>),
    UnexpectedBlock { want: (usize, usize), got: (usize, usize) },
    UnknownBlock,
    ZstdDataCompatibility(DataCompatibilityErrorView),
    ParseBatchTaskFromCalldata(Box<BatchErrorView>),
    EncodeBatchChunk(Box<BatchErrorView>),
    BuildChunkHash(Box<BatchErrorView>),
}

impl BatchErrorView {
    /// The error below every context frame.
    pub open spec fn root_cause(self) -> BatchErrorView
        decreases self,
    {
        match self {
            BatchErrorView::ParseBatchTaskFromCalldata(o) => o.root_cause(),
            BatchErrorView::EncodeBatchChunk(o) => o.root_cause(),
            BatchErrorView::BuildChunkHash(o) => o.root_cause(),
            _ => self,
        }
    }

    /// Whether this is a context frame.
    pub open spec fn is_frame(self) -> bool {
        self is ParseBatchTaskFromCalldata || self is EncodeBatchChunk || self is BuildChunkHash
    }

    /// Number of context frames round the root cause.
    pub open spec fn depth(self) -> nat
        decreases self,
    {
        match self {
            BatchErrorView::ParseBatchTaskFromCalldata(o) => 1 + o.depth(),
            BatchErrorView::EncodeBatchChunk(o) => 1 + o.depth(),
            BatchErrorView::BuildChunkHash(o) => 1 + o.depth(),
            _ => 0,
        }
    }
}

impl View for BatchError {
    type V = BatchErrorView;

    open spec fn view(&self) -> BatchErrorView
        decreases self,
    {
        match self {
            BatchError::UnknownBatchVersion(v) => BatchErrorView::UnknownBatchVersion(*v),
            BatchError::InvalidDABatchData { version, want_at_least, got } =>
                BatchErrorView::InvalidDABatchData {
                    version: *version,
                    want_at_least: *want_at_least,
                    got: *got,
                },
            BatchError::InvalidBlockNumbers(b) => BatchErrorView::InvalidBlockNumbers(b@),
            BatchError::InvalidBlockBytes(b) => BatchErrorView::InvalidBlockBytes(b@),
            BatchError::InvalidNumBlock(n) => BatchErrorView::InvalidNumBlock(*n),
            BatchError::InvalidL1Nonce { expect, current, batch_id, chunk_id, block_id, tx_hash } =>
                BatchErrorView::InvalidL1Nonce {
                    expect: *expect,
                    current: *current,
                    batch_id: *batch_id,
                    chunk_id: *chunk_id,
                    block_id: *block_id,
                    tx_hash: tx_hash@,
                },
            BatchError::MismatchBatchVersionAndBlock { block_batch_version, parent_batch_version } =>
                BatchErrorView::MismatchBatchVersionAndBlock {
                    block_batch_version: *block_batch_version,
                    parent_batch_version: *parent_batch_version,
                },
            BatchError::TooManyChunks { max } => BatchErrorView::TooManyChunks { max: *max },
            BatchError::MissingChunks => BatchErrorView::MissingChunks,
            BatchError::TooFewBlocksInLastChunk => BatchErrorView::TooFewBlocksInLastChunk,
            BatchError::NumL1TxTooLarge => BatchErrorView::NumL1TxTooLarge,
            BatchError::NumTxTooLarge => BatchErrorView::NumTxTooLarge,
            BatchError::OversizedBatchPayload { size } => BatchErrorView::OversizedBatchPayload {
                size: *size,
            },
            BatchError::ZstdEncode(text) => BatchErrorView::ZstdEncode(text@),
            BatchError::KzgError(text) => BatchErrorView::KzgError(text@),
            BatchError::UnexpectedBlock { want, got } => BatchErrorView::UnexpectedBlock {
                want: *want,
                got: *got,
            },
            BatchError::UnknownBlock => BatchErrorView::UnknownBlock,
            BatchError::ZstdDataCompatibility(e) => BatchErrorView::ZstdDataCompatibility(e@),
            BatchError::ParseBatchTaskFromCalldata(o) => BatchErrorView::ParseBatchTaskFromCalldata(
                Box::new((**o).view()),
            ),
            BatchError::EncodeBatchChunk(o) => BatchErrorView::EncodeBatchChunk(
                Box::new((**o).view()),
            ),
            BatchError::BuildChunkHash(o) => BatchErrorView::BuildChunkHash(Box::new((**o).view())),
        }
    }
}

impl BatchError {
    /// The error below every context frame.
    pub fn root_cause(&self) -> (r: &BatchError)
        ensures
            r@ == self@.root_cause(),
            !r@.is_frame(),
        decreases self,
    {
        match self {
            BatchError::ParseBatchTaskFromCalldata(o) => o.root_cause(),
            BatchError::EncodeBatchChunk(o) => o.root_cause(),
            BatchError::BuildChunkHash(o) => o.root_cause(),
            _ => self,
        }
    }

    /// Number of context frames round the root cause, as far as a `usize`
    /// counts.
    pub fn depth(&self) -> (r: usize)
        ensures
            r == if self@.depth() > usize::MAX {
                usize::MAX
            } else {
                self@.depth() as usize
            },
        decreases self,
    {
        match self {
            BatchError::ParseBatchTaskFromCalldata(o) => o.depth().saturating_add(1),
            BatchError::EncodeBatchChunk(o) => o.depth().saturating_add(1),
            BatchError::BuildChunkHash(o) => o.depth().saturating_add(1),
            _ => 0,
        }
    }
}

/// `c_kzg::Error`, the error of the commitment library: carried through,
/// never looked into.
#[verifier::external_type_specification]
#[verifier::external_body]
pub struct ExKzgError(c_kzg::Error);

/// The `Debug` rendering of a `c_kzg::Error`.
pub uninterp spec fn kzg_error_debug_spec(err: c_kzg::Error) -> Seq<char>;

/// The `Debug` rendering of a `c_kzg::Error`, as `format!("{:?}", ..)` gives
/// it through the impl that the library derives. The contract names the
/// text and does not say what it reads.
#[verifier::external_body]
fn kzg_error_text(err: &c_kzg::Error) -> (r: String)
    ensures
        r@ == kzg_error_debug_spec(*err),
{
    format!("{:?}", err)
}

impl vstd::std_specs::convert::FromSpecImpl<c_kzg::Error> for BatchError {
    open spec fn obeys_from_spec() -> bool {
        false
    }

    open spec fn from_spec(v: c_kzg::Error) -> Self {
        BatchError::KzgError(vstd::pervasive::arbitrary())
    }
}

impl From<c_kzg::Error> for BatchError {
    /// A failure of the commitment library becomes `KzgError` with the
    /// library's own rendering of it.
    fn from(err: c_kzg::Error) -> (r: Self)
        ensures
            r is KzgError,
            r->KzgError_0@ == kzg_error_debug_spec(err),
            r@ == BatchErrorView::KzgError(kzg_error_debug_spec(err)),
    {
        BatchError::KzgError(kzg_error_text(&err))
    }
}

impl vstd::std_specs::convert::FromSpecImpl<DataCompatibilityError> for BatchError {
    open spec fn obeys_from_spec() -> bool {
        true
    }

    open spec fn from_spec(v: DataCompatibilityError) -> Self {
        BatchError::ZstdDataCompatibility(v)
    }
}

impl From<DataCompatibilityError> for BatchError {
    fn from(err: DataCompatibilityError) -> (r: Self) {
        BatchError::ZstdDataCompatibility(err)
    }
}

/// What can go wrong while a batch is verified.
#[derive(Debug, PartialEq, Eq)]
pub enum ValidateError {
    /// Replaying a block gave another state root than the one claimed.
    StateRootMismatch { local: B256, remote: B256 },
    /// Replaying a block gave another withdrawal root than the one claimed.
    WithdrawalRootMismatch { local: B256, remote: B256 },
    /// Contexts were asked for, and no execution endpoint is configured.
    RequireExecutionEndpoint,
    /// A block trace could not be turned into a proof-of-block input.
    FailGenPob,
    /// There is nothing to merge into a proof.
    MissingBatch,
    /// The execution engine failed; holds what it printed.
    Execution(String),
    /// The codec failed.
    Batch(BatchError),
    /// The chain endpoint failed; holds what it printed.
    Eth(String),
    /// Frame: while processing the block of this number.
    Block { number: u64, origin: Box<ValidateError> },
    /// Frame: while fetching the trace of the block of this number.
    FailGenBlockTrace { number: u64, origin: Box<ValidateError> },
}

/// [`ValidateError`] over sequences.
pub enum ValidateErrorView {
    StateRootMismatch { local: Seq<u8>, remote: Seq<u8> },
    WithdrawalRootMismatch { local: Seq<u8>, remote: Seq<u8> },
    RequireExecutionEndpoint,
    FailGenPob,
    MissingBatch,
    Execution(Seq<char>),
    Batch(BatchErrorView),
    Eth(Seq<char>),
    Block { number: u64, origin: Box<ValidateErrorView> },
    FailGenBlockTrace { number: u64, origin: Box<ValidateErrorView> },
}

impl ValidateErrorView {
    /// The error below every context frame.
    pub open spec fn root_cause(self) -> ValidateErrorView
        decreases self,
    {
        match self {
            ValidateErrorView::Block { number, origin } => origin.root_cause(),
            ValidateErrorView::FailGenBlockTrace { number, origin } => origin.root_cause(),
            _ => self,
        }
    }

    /// Whether this is a context frame.
    pub open spec fn is_frame(self) -> bool {
        self is Block || self is FailGenBlockTrace
    }
}

impl View for ValidateError {
    type V = ValidateErrorView;

    open spec fn view(&self) -> ValidateErrorView
        decreases self,
    {
        match self {
            ValidateError::StateRootMismatch { local, remote } =>
                ValidateErrorView::StateRootMismatch { local: local@, remote: remote@ },
            ValidateError::WithdrawalRootMismatch { local, remote } =>
                ValidateErrorView::WithdrawalRootMismatch { local: local@, remote: remote@ },
            ValidateError::RequireExecutionEndpoint => ValidateErrorView::RequireExecutionEndpoint,
            ValidateError::FailGenPob => ValidateErrorView::FailGenPob,
            ValidateError::MissingBatch => ValidateErrorView::MissingBatch,
            ValidateError::Execution(s) => ValidateErrorView::Execution(s@),
            ValidateError::Batch(e) => ValidateErrorView::Batch(e@),
            ValidateError::Eth(s) => ValidateErrorView::Eth(s@),
            ValidateError::Block { number, origin } => ValidateErrorView::Block {
                number: *number,
                origin: Box::new((**origin).view()),
            },
            ValidateError::FailGenBlockTrace { number, origin } =>
                ValidateErrorView::FailGenBlockTrace {
                    number: *number,
                    origin: Box::new((**origin).view()),
                },
        }
    }
}

impl ValidateError {
    /// The error below every context frame.
    pub fn root_cause(&self) -> (r: &ValidateError)
        ensures
            r@ == self@.root_cause(),
            !r@.is_frame(),
        decreases self,
    {
        match self {
            ValidateError::Block { number: _, origin } => origin.root_cause(),
            ValidateError::FailGenBlockTrace { number: _, origin } => origin.root_cause(),
            _ => self,
        }
    }

    /// Encloses `self` in the frame of the block numbered `number`.
    pub fn in_block(self, number: u64) -> (r: ValidateError)
        ensures
            r@ == (ValidateErrorView::Block { number, origin: Box::new(self@) }),
    {
        ValidateError::Block { number, origin: Box::new(self) }
    }

    /// Encloses `self` in the frame of the trace fetch for block `number`.
    pub fn in_trace_fetch(self, number: u64) -> (r: ValidateError)
        ensures
            r@ == (ValidateErrorView::FailGenBlockTrace { number, origin: Box::new(self@) }),
    {
        ValidateError::FailGenBlockTrace { number, origin: Box::new(self) }
    }
}

impl vstd::std_specs::convert::FromSpecImpl<BatchError> for ValidateError {
    open spec fn obeys_from_spec() -> bool {
        true
    }

    open spec fn from_spec(v: BatchError) -> Self {
        ValidateError::Batch(v)
    }
}

impl From<BatchError> for ValidateError {
    fn from(err: BatchError) -> (r: Self) {
        ValidateError::Batch(err)
    }
}

} // verus!
