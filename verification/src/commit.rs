//! Digests, compression and commitment: what the codec has from outside, and
//! the packing of a byte stream into the blob that is committed.
//!
//! A batch of version 0 commits to nothing but its chunks. From version 1 on
//! the transaction payload is packed into a blob and the blob is committed;
//! from version 2 on the payload is compressed first, and the compressed
//! stream must be one that can be committed.

use crate::compat::{check_compressed_data_compatibility, stream_violation};
use crate::error::{
    kzg_error_debug_spec, BatchError, BatchErrorView, DataCompatibilityError,
    DataCompatibilityErrorView,
};
use crate::primitives::B256;
use sha3::Digest;
use vstd::prelude::*;
use vstd::slice::{slice_subrange, slice_to_vec};

verus! {

/// Bytes in a blob.
pub const BLOB_LEN: usize = 131072;

/// Bytes of a stream that fit in a blob: 31 in each of its 4096 field elements.
pub const BLOB_CAPACITY: usize = 126976;

/// Compression level of the payload.
pub const ZSTD_LEVEL: i32 = 3;

/// Length of the magic number that starts a compressed frame.
pub const MAGIC_LEN: usize = 4;

/// First version whose payload is committed in a blob.
pub const FIRST_BLOB_VERSION: u8 = 1;

/// First version whose payload is compressed.
pub const FIRST_COMPRESSED_VERSION: u8 = 2;

/// The Keccak-256 digest of `data`, 32 bytes.
pub uninterp spec fn keccak256_spec(data: Seq<u8>) -> Seq<u8>;

/// The Zstandard frame that compressing `data` at `level` gives, or, where
/// the compressor fails, the message of its error.
pub uninterp spec fn zstd_compress_spec(data: Seq<u8>, level: int) -> Result<Seq<u8>, Seq<char>>;

/// The KZG commitment to `blob` under the Ethereum trusted setup, or, where
/// the library refuses the blob, the `Debug` rendering of its error.
pub uninterp spec fn kzg_commitment_spec(blob: Seq<u8>) -> Result<Seq<u8>, Seq<char>>;

/// `sha3::Keccak256::digest` (trait `Digest`): the digest of `data`. The
/// contract names the digest and does not say how it is computed.
#[verifier::external_body]
pub(crate) fn keccak256(data: &[u8]) -> (r: B256)
    ensures
        r@ == keccak256_spec(data@),
{
    B256 { bytes: sha3::Keccak256::digest(data).into() }
}

/// `zstd::bulk::compress`: the compressed frame of `data`, or the engine's
/// error as `Display` prints it. The contract names both and does not say
/// how they are computed.
#[verifier::external_body]
pub(crate) fn zstd_compress(data: &[u8], level: i32) -> (r: Result<Vec<u8>, String>)
    ensures
        match zstd_compress_spec(data@, level as int) {
            Ok(frame) => r is Ok && r->Ok_0@ == frame,
            Err(text) => r is Err && r->Err_0@ == text,
        },
{
    match zstd::bulk::compress(data, level) {
        Ok(frame) => Ok(frame),
        Err(e) => Err(format!("{}", e)),
    }
}

/// `c_kzg::KzgCommitment::blob_to_kzg_commitment` on the blob that
/// `c_kzg::Blob::from_bytes` makes of `blob`, under
/// `c_kzg::ethereum_kzg_settings()`. The contract names the commitment, and
/// the rendering of the error where the call fails; `from_bytes` fails on
/// every length but that of a blob.
#[verifier::external_body]
pub(crate) fn kzg_commit(blob: &[u8]) -> (r: Result<Vec<u8>, c_kzg::Error>)
    ensures
        match kzg_commitment_spec(blob@) {
            Ok(c) => r is Ok && r->Ok_0@ == c,
            Err(text) => r is Err && kzg_error_debug_spec(r->Err_0) == text,
        },
        blob@.len() != BLOB_LEN ==> r is Err,
{
    let blob = c_kzg::Blob::from_bytes(blob)?;
    let settings = c_kzg::ethereum_kzg_settings();
    let commitment = c_kzg::KzgCommitment::blob_to_kzg_commitment(&blob, settings)?;
    Ok(commitment.to_bytes().into_inner().to_vec())
}

/// The blob that holds the stream `s`: 4096 field elements of 32 bytes, each a
/// zero byte followed by the next 31 bytes of the stream, zeros after its end.
pub open spec fn packed(s: Seq<u8>) -> Seq<u8> {
    Seq::new(
        BLOB_LEN as nat,
        |i: int|
            if i % 32 == 0 {
                0u8
            } else if (i / 32) * 31 + i % 32 - 1 < s.len() {
                s[(i / 32) * 31 + i % 32 - 1]
            } else {
                0u8
            },
    )
}

/// Packs `data` into a blob, or says that it does not fit.
pub fn pack_blob(data: &[u8]) -> (r: Result<Vec<u8>, BatchError>)
    ensures
        data@.len() <= BLOB_CAPACITY ==> r is Ok && r->Ok_0@ == packed(data@),
        data@.len() > BLOB_CAPACITY ==> r is Err && r->Err_0@ == (
        BatchErrorView::OversizedBatchPayload { size: data@.len() as usize }),
{
    let n = data.len();
    if n > BLOB_CAPACITY {
        return Err(BatchError::OversizedBatchPayload { size: n });
    }
    let mut blob: Vec<u8> = vec![0u8; BLOB_LEN];
    let mut j: usize = 0;
    while j < n
        invariant
            n == data@.len(),
            n <= BLOB_CAPACITY,
            j <= n,
            blob@.len() == BLOB_LEN,
            forall|i: int|
                0 <= i < BLOB_LEN ==> #[trigger] blob@[i] == if i % 32 == 0 {
                    0u8
                } else if (i / 32) * 31 + i % 32 - 1 < j {
                    data@[(i / 32) * 31 + i % 32 - 1]
                } else {
                    0u8
                },
        decreases n - j,
    {
        let at: usize = (j / 31) * 32 + 1 + j % 31;
        assert(at % 32 == 1 + j % 31 && at / 32 == j / 31);
        let ghost before = blob@;
        blob.set(at, data[j]);
        assert forall|i: int| 0 <= i < BLOB_LEN implies #[trigger] blob@[i] == if i % 32 == 0 {
            0u8
        } else if (i / 32) * 31 + i % 32 - 1 < j + 1 {
            data@[(i / 32) * 31 + i % 32 - 1]
        } else {
            0u8
        } by {
            if i != at {
                assert(blob@[i] == before[i]);
                if i % 32 != 0 {
                    assert((i / 32) * 31 + i % 32 - 1 != j);
                }
            }
        }
        j += 1;
    }
    assert(blob@ =~= packed(data@));
    Ok(blob)
}

/// The stream that a batch of `version` commits for `payload`.
pub open spec fn stream_for(version: u8, payload: Seq<u8>) -> Result<Seq<u8>, BatchErrorView> {
    if version < FIRST_COMPRESSED_VERSION {
        Ok(payload)
    } else {
        match zstd_compress_spec(payload, ZSTD_LEVEL as int) {
            Err(text) => Err(BatchErrorView::ZstdEncode(text)),
            Ok(frame) => if frame.len() < MAGIC_LEN {
                Err(
                    BatchErrorView::ZstdDataCompatibility(
                        DataCompatibilityErrorView::SizeTooSmall(frame),
                    ),
                )
            } else {
                match stream_violation(frame.skip(MAGIC_LEN as int)) {
                    Some(e) => Err(BatchErrorView::ZstdDataCompatibility(e)),
                    None => Ok(frame.skip(MAGIC_LEN as int)),
                }
            },
        }
    }
}

/// The commitment of a batch of `version` to `payload`: nothing in version 0,
/// else the commitment to the blob that holds the stream.
pub open spec fn commitment_for(version: u8, payload: Seq<u8>) -> Result<
    Seq<u8>,
    BatchErrorView,
> {
    if version < FIRST_BLOB_VERSION {
        Ok(Seq::empty())
    } else {
        match stream_for(version, payload) {
            Err(e) => Err(e),
            Ok(s) => if s.len() > BLOB_CAPACITY {
                Err(BatchErrorView::OversizedBatchPayload { size: s.len() as usize })
            } else {
                match kzg_commitment_spec(packed(s)) {
                    Err(text) => Err(BatchErrorView::KzgError(text)),
                    Ok(c) => Ok(c),
                }
            },
        }
    }
}

/// The stream of a compressed version for `payload`, from the frame that the
/// compressor returned for it.
pub fn stream_from_frame(frame: Vec<u8>) -> (r: Result<Vec<u8>, BatchError>)
    ensures
        frame@.len() < MAGIC_LEN ==> r is Err && r->Err_0@ == BatchErrorView::ZstdDataCompatibility(
            DataCompatibilityErrorView::SizeTooSmall(frame@),
        ),
        frame@.len() >= MAGIC_LEN ==> match stream_violation(frame@.skip(MAGIC_LEN as int)) {
            Some(e) => r is Err && r->Err_0@ == BatchErrorView::ZstdDataCompatibility(e),
            None => r is Ok && r->Ok_0@ == frame@.skip(MAGIC_LEN as int),
        },
{
    if frame.len() < MAGIC_LEN {
        return Err(BatchError::ZstdDataCompatibility(DataCompatibilityError::SizeTooSmall(frame)));
    }
    let body = slice_subrange(frame.as_slice(), MAGIC_LEN, frame.len());
    assert(body@ =~= frame@.skip(MAGIC_LEN as int));
    match check_compressed_data_compatibility(body) {
        Err(e) => Err(BatchError::ZstdDataCompatibility(e)),
        Ok(()) => Ok(slice_to_vec(body)),
    }
}

/// Computes the commitment of a batch of `version` to `payload`.
pub fn commit(version: u8, payload: &[u8]) -> (r: Result<Vec<u8>, BatchError>)
    ensures
        match commitment_for(version, payload@) {
            Ok(c) => r is Ok && r->Ok_0@ == c,
            Err(e) => r is Err && r->Err_0@ == e,
        },
{
    if version < FIRST_BLOB_VERSION {
        return Ok(Vec::new());
    }
    let stream: Vec<u8> = if version < FIRST_COMPRESSED_VERSION {
        slice_to_vec(payload)
    } else {
        match zstd_compress(payload, ZSTD_LEVEL) {
            Err(text) => {
                return Err(BatchError::ZstdEncode(text));
            },
            Ok(frame) => match stream_from_frame(frame) {
                Err(e) => {
                    return Err(e);
                },
                Ok(s) => s,
            },
        }
    };
    let blob = match pack_blob(stream.as_slice()) {
        Err(e) => {
            return Err(e);
        },
        Ok(b) => b,
    };
    match kzg_commit(blob.as_slice()) {
        Err(e) => Err(BatchError::from(e)),
        Ok(c) => Ok(c),
    }
}

} // verus!
