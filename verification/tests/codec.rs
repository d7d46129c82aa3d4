use scroll_verifier::batch::BatchTask;
use scroll_verifier::error::{BatchError, DataCompatibilityError};
use scroll_verifier::parse::Block;
use scroll_verifier::primitives::B256;

fn block(number: u64, l1_nonce: u64, num_l1_txs: u16, txs: &[u8]) -> Block {
    Block {
        number,
        timestamp: 1_700_000_000 + number,
        l1_nonce,
        num_txs: num_l1_txs + 1,
        num_l1_txs,
        txs: txs.to_vec(),
    }
}

fn record(b: &Block) -> Vec<u8> {
    let mut out = Vec::new();
    out.extend_from_slice(&b.number.to_le_bytes());
    out.extend_from_slice(&b.timestamp.to_le_bytes());
    out.extend_from_slice(&b.l1_nonce.to_le_bytes());
    out.extend_from_slice(&b.num_txs.to_le_bytes());
    out.extend_from_slice(&b.num_l1_txs.to_le_bytes());
    out.extend_from_slice(&(b.txs.len() as u64).to_le_bytes());
    out.extend_from_slice(&b.txs);
    out
}

fn calldata(version: u8, id: u64, chunks: &[Vec<Block>]) -> Vec<u8> {
    let mut out = vec![version];
    out.extend_from_slice(&id.to_le_bytes());
    out.push(chunks.len() as u8);
    for chunk in chunks {
        out.push(chunk.len() as u8);
        for b in chunk {
            out.extend_from_slice(&record(b));
        }
    }
    out
}

fn two_chunks() -> Vec<Vec<Block>> {
    vec![
        vec![block(10, 3, 2, b"first block"), block(11, 5, 0, b"second")],
        vec![block(12, 5, 1, b"third one")],
    ]
}

fn text(len: usize) -> Vec<u8> {
    let words = b"the quick brown fox jumps over the lazy dog and runs far away; ";
    (0..len).map(|i| words[(i * 7 + i / 13) % words.len()]).collect()
}

fn root(e: &BatchError) -> &BatchError {
    e.root_cause()
}

#[test]
fn decodes_a_version_zero_batch() {
    let data = calldata(0, 77, &two_chunks());
    let batch = BatchTask::from_calldata(&data).unwrap();
    assert_eq!(batch.id(), 77);
    assert_eq!(batch.version(), 0);
    assert_eq!(batch.num_chunks(), 2);
    assert_eq!(batch.chunk_len(0), 2);
    assert_eq!(batch.chunk_len(1), 1);
    assert_eq!(batch.chunk_len(2), 0);
    assert_eq!(batch.start(), Some(10));
    assert_eq!(batch.end(), Some(12));
    assert_eq!(batch.blocks().len(), 3);
    assert_eq!(batch.blocks()[1], block(11, 5, 0, b"second"));
    assert!(batch.commitment().is_empty());
}

#[test]
fn encoding_gives_back_the_calldata() {
    let data = calldata(0, 77, &two_chunks());
    let batch = BatchTask::from_calldata(&data).unwrap();
    assert_eq!(batch.encode(), data);
}

#[test]
fn decoding_the_encoding_keeps_the_hash() {
    for version in [0u8, 1u8] {
        let data = calldata(version, 9, &two_chunks());
        let batch = BatchTask::from_calldata(&data).unwrap();
        let again = BatchTask::from_calldata(&batch.encode()).unwrap();
        assert_eq!(again.hash(), batch.hash());
        assert_eq!(again.blocks(), batch.blocks());
        assert_eq!(again.commitment(), batch.commitment());
    }
}

#[test]
fn hash_depends_on_content_and_layout() {
    let a = BatchTask::from_calldata(&calldata(0, 1, &two_chunks())).unwrap();
    let other_id = BatchTask::from_calldata(&calldata(0, 2, &two_chunks())).unwrap();
    let mut flat = two_chunks();
    let last = flat.pop().unwrap();
    flat[0].extend(last);
    let one_chunk = BatchTask::from_calldata(&calldata(0, 1, &flat)).unwrap();
    assert_ne!(a.hash(), other_id.hash());
    assert_ne!(a.hash(), one_chunk.hash());
    let same = BatchTask::from_calldata(&calldata(0, 1, &two_chunks())).unwrap();
    assert_eq!(a.hash(), same.hash());
}

#[test]
fn empty_calldata_is_too_short() {
    let err = BatchTask::from_calldata(&[]).unwrap_err();
    assert_eq!(
        err,
        BatchError::ParseBatchTaskFromCalldata(Box::new(BatchError::InvalidDABatchData {
            version: 0,
            want_at_least: 1,
            got: 0
        }))
    );
    assert_eq!(err.depth(), 1);
}

#[test]
fn short_header_is_rejected() {
    let err = BatchTask::from_calldata(&[1, 0, 0, 0]).unwrap_err();
    assert_eq!(
        root(&err),
        &BatchError::InvalidDABatchData { version: 1, want_at_least: 10, got: 4 }
    );
}

#[test]
fn unknown_version_is_rejected() {
    let mut data = calldata(0, 1, &two_chunks());
    data[0] = 5;
    let err = BatchTask::from_calldata(&data).unwrap_err();
    assert_eq!(root(&err), &BatchError::UnknownBatchVersion(5));
    let err = BatchTask::from_calldata(&[200]).unwrap_err();
    assert_eq!(root(&err), &BatchError::UnknownBatchVersion(200));
}

#[test]
fn zero_chunks_is_missing_chunks() {
    let err = BatchTask::from_calldata(&calldata(0, 1, &[])).unwrap_err();
    assert_eq!(root(&err), &BatchError::MissingChunks);
}

#[test]
fn one_chunk_over_the_maximum_is_too_many() {
    let chunks = |n: u64| -> Vec<Vec<Block>> {
        (0..n).map(|i| vec![block(100 + i, 0, 0, b"x")]).collect()
    };
    let err = BatchTask::from_calldata(&calldata(0, 1, &chunks(16))).unwrap_err();
    assert_eq!(root(&err), &BatchError::TooManyChunks { max: 15 });
    let err = BatchTask::from_calldata(&calldata(1, 1, &chunks(16))).unwrap_err();
    assert_eq!(root(&err), &BatchError::TooManyChunks { max: 15 });
    let err = BatchTask::from_calldata(&calldata(2, 1, &chunks(46))).unwrap_err();
    assert_eq!(root(&err), &BatchError::TooManyChunks { max: 45 });
    let full = BatchTask::from_calldata(&calldata(0, 1, &chunks(15))).unwrap();
    assert_eq!(full.num_chunks(), 15);
}

#[test]
fn empty_last_chunk_has_too_few_blocks() {
    let mut chunks = two_chunks();
    chunks.push(vec![]);
    let err = BatchTask::from_calldata(&calldata(0, 1, &chunks)).unwrap_err();
    assert_eq!(root(&err), &BatchError::TooFewBlocksInLastChunk);
}

#[test]
fn empty_inner_chunk_is_an_invalid_block_count() {
    let mut chunks = two_chunks();
    chunks.insert(1, vec![]);
    let err = BatchTask::from_calldata(&calldata(0, 1, &chunks)).unwrap_err();
    assert_eq!(root(&err), &BatchError::InvalidNumBlock(0));
}

#[test]
fn block_count_beyond_the_bytes_is_invalid() {
    let mut data = calldata(0, 1, &[vec![block(1, 0, 0, b"")]]);
    data[10] = 2;
    let err = BatchTask::from_calldata(&data).unwrap_err();
    assert_eq!(root(&err), &BatchError::InvalidNumBlock(2));
}

#[test]
fn missing_chunk_is_short_data() {
    let mut data = calldata(0, 1, &[vec![block(1, 0, 0, b"ab")]]);
    data[9] = 2;
    let len = data.len();
    let err = BatchTask::from_calldata(&data).unwrap_err();
    assert_eq!(
        root(&err),
        &BatchError::InvalidDABatchData { version: 0, want_at_least: len + 1, got: len }
    );
}

#[test]
fn cut_record_is_invalid_block_bytes() {
    let chunks = vec![vec![block(1, 0, 0, &text(40)), block(2, 0, 0, &text(40))]];
    let mut data = calldata(0, 1, &chunks);
    data.truncate(data.len() - 5);
    let second = 11 + 36 + 40;
    let err = BatchTask::from_calldata(&data).unwrap_err();
    assert_eq!(root(&err), &BatchError::InvalidBlockBytes(data[second..].to_vec()));
}

#[test]
fn trailing_bytes_are_invalid_block_bytes() {
    let mut data = calldata(0, 1, &two_chunks());
    data.extend_from_slice(&[9, 8, 7]);
    let err = BatchTask::from_calldata(&data).unwrap_err();
    assert_eq!(root(&err), &BatchError::InvalidBlockBytes(vec![9, 8, 7]));
}

#[test]
fn gap_in_block_numbers_is_rejected() {
    let chunks = vec![vec![block(10, 0, 0, b"a"), block(12, 0, 0, b"b")]];
    let err = BatchTask::from_calldata(&calldata(0, 1, &chunks)).unwrap_err();
    assert_eq!(root(&err), &BatchError::InvalidBlockNumbers(12u64.to_le_bytes().to_vec()));
    let chunks = vec![vec![block(10, 0, 0, b"a")], vec![block(10, 0, 0, b"b")]];
    let err = BatchTask::from_calldata(&calldata(0, 1, &chunks)).unwrap_err();
    assert_eq!(root(&err), &BatchError::InvalidBlockNumbers(10u64.to_le_bytes().to_vec()));
    let chunks = vec![vec![block(u64::MAX, 0, 0, b"a"), block(0, 0, 0, b"b")]];
    let err = BatchTask::from_calldata(&calldata(0, 1, &chunks)).unwrap_err();
    assert_eq!(root(&err), &BatchError::InvalidBlockNumbers(0u64.to_le_bytes().to_vec()));
}

#[test]
fn out_of_order_nonce_is_rejected_with_its_position() {
    let chunks = vec![
        vec![block(10, 3, 2, b"first block")],
        vec![block(11, 5, 0, b"second"), block(12, 7, 1, b"")],
    ];
    let err = BatchTask::from_calldata(&calldata(0, 42, &chunks)).unwrap_err();
    let keccak_of_nothing = B256 {
        bytes: [
            0xc5, 0xd2, 0x46, 0x01, 0x86, 0xf7, 0x23, 0x3c, 0x92, 0x7e, 0x7d, 0xb2, 0xdc, 0xc7,
            0x03, 0xc0, 0xe5, 0x00, 0xb6, 0x53, 0xca, 0x82, 0x27, 0x3b, 0x7b, 0xfa, 0xd8, 0x04,
            0x5d, 0x85, 0xa4, 0x70,
        ],
    };
    assert_eq!(
        root(&err),
        &BatchError::InvalidL1Nonce {
            expect: 5,
            current: 7,
            batch_id: 42,
            chunk_id: 1,
            block_id: 1,
            tx_hash: keccak_of_nothing,
        }
    );
}

#[test]
fn nonce_below_the_counter_is_rejected() {
    let chunks = vec![vec![block(10, 3, 2, b"a"), block(11, 4, 0, b"b")]];
    let err = BatchTask::from_calldata(&calldata(0, 1, &chunks)).unwrap_err();
    assert!(matches!(
        root(&err),
        BatchError::InvalidL1Nonce { expect: 5, current: 4, chunk_id: 0, block_id: 1, .. }
    ));
}

#[test]
fn nonce_counter_stops_at_the_largest_value() {
    let chunks = vec![vec![block(10, u64::MAX - 1, 5, b"a"), block(11, u64::MAX, 0, b"b")]];
    let batch = BatchTask::from_calldata(&calldata(0, 1, &chunks)).unwrap();
    assert_eq!(batch.blocks()[1].l1_nonce, u64::MAX);
}

#[test]
fn too_many_l1_transactions_are_rejected() {
    let mut a = block(1, 0, 40000, b"a");
    a.num_txs = 0;
    let mut b = block(2, 40000, 25536, b"b");
    b.num_txs = 0;
    let err = BatchTask::from_calldata(&calldata(0, 1, &[vec![a.clone(), b.clone()]])).unwrap_err();
    assert_eq!(root(&err), &BatchError::NumL1TxTooLarge);
    b.num_l1_txs = 25535;
    assert!(BatchTask::from_calldata(&calldata(0, 1, &[vec![a, b]])).is_ok());
}

#[test]
fn too_many_transactions_are_rejected() {
    let mut a = block(1, 0, 0, b"a");
    a.num_txs = 65535;
    let mut b = block(2, 0, 0, b"b");
    b.num_txs = 1;
    let err = BatchTask::from_calldata(&calldata(0, 1, &[vec![a.clone(), b.clone()]])).unwrap_err();
    assert_eq!(root(&err), &BatchError::NumTxTooLarge);
    b.num_txs = 0;
    assert!(BatchTask::from_calldata(&calldata(0, 1, &[vec![a, b]])).is_ok());
}

#[test]
fn version_one_commits_to_the_blob() {
    let empty = BatchTask::from_calldata(&calldata(1, 1, &[vec![block(1, 0, 0, b"")]])).unwrap();
    let mut infinity = vec![0u8; 48];
    infinity[0] = 0xc0;
    assert_eq!(empty.commitment(), &infinity);
    let some = BatchTask::from_calldata(&calldata(1, 1, &two_chunks())).unwrap();
    assert_eq!(some.commitment().len(), 48);
    assert_ne!(some.commitment(), &infinity);
    let zero = BatchTask::from_calldata(&calldata(0, 1, &two_chunks())).unwrap();
    assert_ne!(zero.hash(), some.hash());
}

#[test]
fn version_one_payload_over_capacity_is_oversized() {
    let chunks = vec![vec![block(1, 0, 0, &text(126976))]];
    assert!(BatchTask::from_calldata(&calldata(1, 1, &chunks)).is_ok());
    let chunks = vec![vec![block(1, 0, 0, &text(126000)), block(2, 0, 0, &text(977))]];
    let err = BatchTask::from_calldata(&calldata(1, 1, &chunks)).unwrap_err();
    assert_eq!(
        err,
        BatchError::ParseBatchTaskFromCalldata(Box::new(BatchError::EncodeBatchChunk(Box::new(
            BatchError::OversizedBatchPayload { size: 126977 }
        ))))
    );
    assert_eq!(err.depth(), 2);
}

#[test]
fn version_two_commits_to_the_compressed_payload() {
    let chunks = vec![vec![block(1, 0, 0, &text(3000)), block(2, 0, 0, &text(2000))]];
    let plain = BatchTask::from_calldata(&calldata(1, 1, &chunks)).unwrap();
    let packed = BatchTask::from_calldata(&calldata(2, 1, &chunks)).unwrap();
    assert_eq!(packed.commitment().len(), 48);
    assert_ne!(packed.commitment(), plain.commitment());
    let again = BatchTask::from_calldata(&packed.encode()).unwrap();
    assert_eq!(again.hash(), packed.hash());
}

#[test]
fn version_two_payload_that_compresses_to_a_few_bytes_is_too_small() {
    let chunks = vec![vec![block(1, 0, 0, &vec![7u8; 5000])]];
    let err = BatchTask::from_calldata(&calldata(2, 1, &chunks)).unwrap_err();
    match root(&err) {
        BatchError::ZstdDataCompatibility(DataCompatibilityError::SizeTooSmall(stream)) => {
            assert!(stream.len() < 16);
        }
        other => panic!("unexpected error {:?}", other),
    }
    assert_eq!(err.depth(), 2);
}

#[test]
fn version_two_payload_that_does_not_compress_is_incompatible() {
    let mut state: u64 = 0x2545_f491_4f6c_dd1d;
    let noise: Vec<u8> = (0..1000)
        .map(|_| {
            state = state.wrapping_mul(6364136223846793005).wrapping_add(1442695040888963407);
            (state >> 56) as u8
        })
        .collect();
    let chunks = vec![vec![block(1, 0, 0, &noise)]];
    let err = BatchTask::from_calldata(&calldata(2, 1, &chunks)).unwrap_err();
    assert_eq!(
        root(&err),
        &BatchError::ZstdDataCompatibility(DataCompatibilityError::UnexpectedBlkType {
            blk_ty: 0,
            blk_size: 1000,
            is_last: true
        })
    );
    assert!(BatchTask::from_calldata(&calldata(1, 1, &chunks)).is_ok());
}
