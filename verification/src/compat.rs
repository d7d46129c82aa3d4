//! The check that a compressed stream is one that can be committed.
//!
//! The stream is a Zstandard frame without its magic number. Only frames of
//! one shape are accepted: a single-segment frame with no dictionary and no
//! checksum, made of compressed blocks only, the last of them marked last.

use crate::error::{DataCompatibilityError, DataCompatibilityErrorView};
use vstd::prelude::*;
use vstd::slice::slice_to_vec;

verus! {

/// Shortest stream that is looked at.
pub const MIN_STREAM_LEN: usize = 16;

/// Length of a block header.
pub const BLOCK_HEADER_LEN: usize = 3;

/// The block type of a compressed block.
pub const COMPRESSED_BLOCK: u8 = 2;

/// Length of the frame header that starts with descriptor byte `h`: the
/// descriptor and a content size of 1, 2, 4 or 8 bytes.
pub open spec fn frame_header_len(h: u8) -> nat {
    if h / 64 == 0 {
        2
    } else if h / 64 == 1 {
        3
    } else if h / 64 == 2 {
        5
    } else {
        9
    }
}

/// Whether the block header `d[0..3]` marks the block as last.
pub open spec fn block_is_last(d: Seq<u8>) -> bool {
    d[0] % 2 == 1
}

/// The block type that the block header `d[0..3]` declares.
pub open spec fn block_type(d: Seq<u8>) -> u8 {
    ((d[0] / 2) % 4) as u8
}

/// The block size that the block header `d[0..3]` declares.
pub open spec fn block_size(d: Seq<u8>) -> nat {
    ((d[2] as nat * 65536 + d[1] as nat * 256 + d[0] as nat) / 8) as nat
}

/// What is wrong with the blocks `d` of a frame, if anything.
pub open spec fn blocks_violation(d: Seq<u8>) -> Option<DataCompatibilityErrorView>
    decreases d.len(),
{
    if d.len() <= 3 {
        Some(DataCompatibilityErrorView::UnexpectedEndBeforeLastBlock)
    } else if block_type(d) != COMPRESSED_BLOCK {
        Some(
            DataCompatibilityErrorView::UnexpectedBlkType {
                blk_ty: block_type(d),
                blk_size: block_size(d) as usize,
                is_last: block_is_last(d),
            },
        )
    } else if d.len() < 3 + block_size(d) {
        Some(
            DataCompatibilityErrorView::WrongDataLen {
                len: d.len() as usize,
                min: (3 + block_size(d)) as usize,
            },
        )
    } else if block_is_last(d) {
        None
    } else {
        blocks_violation(d.skip(3 + block_size(d) as int))
    }
}

/// What is wrong with the stream `d`, if anything.
pub open spec fn stream_violation(d: Seq<u8>) -> Option<DataCompatibilityErrorView> {
    if d.len() < 16 {
        Some(DataCompatibilityErrorView::SizeTooSmall(d))
    } else if d[0] % 64 != 32 {
        Some(DataCompatibilityErrorView::UnexpectedHeaderType(d[0]))
    } else {
        blocks_violation(d.skip(frame_header_len(d[0]) as int))
    }
}

/// Checks that `data` is a stream that can be committed.
pub fn check_compressed_data_compatibility(data: &[u8]) -> (r: Result<
    (),
    DataCompatibilityError,
>)
    ensures
        match stream_violation(data@) {
            None => r is Ok,
            Some(e) => r is Err && r->Err_0@ == e,
        },
{
    let len = data.len();
    if len < MIN_STREAM_LEN {
        return Err(DataCompatibilityError::SizeTooSmall(slice_to_vec(data)));
    }
    let h = data[0];
    if h % 64 != 32 {
        return Err(DataCompatibilityError::UnexpectedHeaderType(h));
    }
    let mut off: usize = if h / 64 == 0 {
        2
    } else if h / 64 == 1 {
        3
    } else if h / 64 == 2 {
        5
    } else {
        9
    };
    loop
        invariant
            len == data@.len(),
            off <= len,
            stream_violation(data@) == blocks_violation(data@.skip(off as int)),
        decreases len - off,
    {
        let ghost d = data@.skip(off as int);
        if len - off <= BLOCK_HEADER_LEN {
            return Err(DataCompatibilityError::UnexpectedEndBeforeLastBlock);
        }
        let b0 = data[off];
        let b1 = data[off + 1];
        let b2 = data[off + 2];
        assert(d[0] == b0 && d[1] == b1 && d[2] == b2);
        let is_last = b0 % 2 == 1;
        let blk_ty = (b0 / 2) % 4;
        let blk_size: usize = (b2 as usize * 65536 + b1 as usize * 256 + b0 as usize) / 8;
        assert(blk_size == block_size(d));
        if blk_ty != COMPRESSED_BLOCK {
            return Err(DataCompatibilityError::UnexpectedBlkType { blk_ty, blk_size, is_last });
        }
        if len - off < BLOCK_HEADER_LEN + blk_size {
            return Err(
                DataCompatibilityError::WrongDataLen {
                    len: len - off,
                    min: BLOCK_HEADER_LEN + blk_size,
                },
            );
        }
        if is_last {
            return Ok(());
        }
        assert(d.skip(3 + blk_size as int) =~= data@.skip(off + 3 + blk_size));
        off = off + BLOCK_HEADER_LEN + blk_size;
    }
}

} // verus!
