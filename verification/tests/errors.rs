use scroll_verifier::batch::BatchTask;
use scroll_verifier::error::{BatchError, DataCompatibilityError, ValidateError};
use scroll_verifier::primitives::B256;

#[test]
fn commitment_failure_keeps_the_library_rendering() {
    let cause = c_kzg::Error::InvalidBytesLength("Invalid byte length. Expected 131072 got 3".to_string());
    let text = format!("{:?}", cause);
    assert_eq!(BatchError::from(cause), BatchError::KzgError(text));
    let cause = c_kzg::Error::MismatchLength("two and three".to_string());
    assert_eq!(
        BatchError::from(cause),
        BatchError::KzgError("MismatchLength(\"two and three\")".to_string())
    );
}

#[test]
fn stream_failure_is_wrapped() {
    let cause = DataCompatibilityError::WrongDataLen { len: 3, min: 9 };
    assert_eq!(BatchError::from(cause.clone()), BatchError::ZstdDataCompatibility(cause));
}

#[test]
fn codec_failure_is_wrapped() {
    assert_eq!(
        ValidateError::from(BatchError::UnknownBlock),
        ValidateError::Batch(BatchError::UnknownBlock)
    );
}

#[test]
fn frames_are_counted_and_peeled() {
    let leaf = BatchError::TooManyChunks { max: 15 };
    assert_eq!(leaf.depth(), 0);
    assert_eq!(leaf.root_cause(), &BatchError::TooManyChunks { max: 15 });
    let framed = BatchError::ParseBatchTaskFromCalldata(Box::new(BatchError::EncodeBatchChunk(
        Box::new(BatchError::BuildChunkHash(Box::new(BatchError::NumTxTooLarge))),
    )));
    assert_eq!(framed.depth(), 3);
    assert_eq!(framed.root_cause(), &BatchError::NumTxTooLarge);
}

#[test]
fn block_frames_are_peeled() {
    let leaf = ValidateError::StateRootMismatch { local: B256::zero(), remote: B256 { bytes: [1; 32] } };
    let cause = ValidateError::StateRootMismatch { local: B256::zero(), remote: B256 { bytes: [1; 32] } };
    let framed = leaf.in_block(12).in_trace_fetch(12);
    assert_eq!(
        framed,
        ValidateError::FailGenBlockTrace {
            number: 12,
            origin: Box::new(ValidateError::Block { number: 12, origin: Box::new(cause) })
        }
    );
    assert!(matches!(framed.root_cause(), ValidateError::StateRootMismatch { .. }));
    assert_eq!(ValidateError::MissingBatch.root_cause(), &ValidateError::MissingBatch);
}

#[test]
fn decodes_calldata_written_in_hex() {
    let data = hex::decode(concat_hex()).unwrap();
    let batch = BatchTask::from_calldata(&data).unwrap();
    assert_eq!(batch.version(), 0);
    assert_eq!(batch.id(), 1);
    assert_eq!(batch.num_chunks(), 1);
    assert_eq!(batch.start(), Some(5));
    assert_eq!(batch.end(), Some(5));
    assert_eq!(batch.blocks()[0].timestamp, 6);
    assert_eq!(batch.blocks()[0].num_txs, 1);
    assert_eq!(batch.blocks()[0].txs, b"ab".to_vec());
    assert_eq!(hex::encode(batch.encode()), concat_hex());
}

fn concat_hex() -> String {
    [
        "00",
        "0100000000000000",
        "01",
        "01",
        "0500000000000000",
        "0600000000000000",
        "0000000000000000",
        "0100",
        "0000",
        "0200000000000000",
        "6162",
    ]
    .concat()
}
