use scroll_verifier::batch::BatchTask;
use scroll_verifier::batch_verifier::{ScrollBatchVerifier, VerifyRun};
use scroll_verifier::context::{ExecutionResult, Pob, PobContext, Poe};
use scroll_verifier::error::{BatchError, ValidateError};
use scroll_verifier::hardfork::{Hardfork, HardforkConfig};
use scroll_verifier::parse::Block;
use scroll_verifier::primitives::B256;

fn b256(tag: u8) -> B256 {
    let mut bytes = [tag; 32];
    bytes[0] = 0xee;
    B256 { bytes }
}

fn block(number: u64) -> Block {
    Block {
        number,
        timestamp: 1000 + number,
        l1_nonce: 0,
        num_txs: 1,
        num_l1_txs: 0,
        txs: format!("transactions of block {}", number).into_bytes(),
    }
}

fn pob(number: u64) -> Pob {
    Pob {
        chain_id: 534352,
        block: block(number),
        prev_state_root: b256(number as u8),
        state_root: b256(number as u8 + 1),
        withdrawal_root: b256(number as u8 + 100),
    }
}

fn agreed(p: &Pob) -> ExecutionResult {
    ExecutionResult { new_state_root: p.state_root, new_withdrawal_root: p.withdrawal_root }
}

fn table() -> HardforkConfig {
    HardforkConfig::new(vec![Hardfork { block: 50, time: 0, version: 1 }])
}

fn calldata(version: u8, id: u64, chunks: &[Vec<Block>]) -> Vec<u8> {
    let mut out = vec![version];
    out.extend_from_slice(&id.to_le_bytes());
    out.push(chunks.len() as u8);
    for chunk in chunks {
        out.push(chunk.len() as u8);
        for b in chunk {
            out.extend_from_slice(&b.number.to_le_bytes());
            out.extend_from_slice(&b.timestamp.to_le_bytes());
            out.extend_from_slice(&b.l1_nonce.to_le_bytes());
            out.extend_from_slice(&b.num_txs.to_le_bytes());
            out.extend_from_slice(&b.num_l1_txs.to_le_bytes());
            out.extend_from_slice(&(b.txs.len() as u64).to_le_bytes());
            out.extend_from_slice(&b.txs);
        }
    }
    out
}

fn committed(first: u64, count: u64) -> Vec<u8> {
    let first_chunk: Vec<Block> = (first..first + 1).map(block).collect();
    let rest: Vec<Block> = (first + 1..first + count).map(block).collect();
    if rest.is_empty() {
        calldata(0, 7, &[first_chunk])
    } else {
        calldata(0, 7, &[first_chunk, rest])
    }
}

fn contexts(first: u64, count: u64) -> Vec<PobContext> {
    (first..first + count).map(|n| PobContext::new(pob(n), &table())).collect()
}

fn start(first: u64, count: u64) -> VerifyRun {
    let batch = BatchTask::from_calldata(&committed(first, count)).unwrap();
    ScrollBatchVerifier::verify(&batch, contexts(first, count), &table()).unwrap()
}

fn replay_all(run: &mut VerifyRun, order: &[usize]) {
    let mut started = Vec::new();
    let mut pending: Vec<usize> = order.to_vec();
    loop {
        while let Some(i) = run.next() {
            started.push(i);
        }
        let Some(at) = pending.iter().position(|i| run.is_running(*i)) else {
            break;
        };
        let i = pending.remove(at);
        let result = agreed(&run.context(i).pob);
        run.executed(i, Ok(result));
    }
    assert_eq!(started, (0..run.len()).collect::<Vec<_>>());
}

#[test]
fn verify_without_contexts_is_missing_batch() {
    let batch = BatchTask::from_calldata(&committed(1, 3)).unwrap();
    let err = ScrollBatchVerifier::verify(&batch, vec![], &table()).unwrap_err();
    assert_eq!(err, ValidateError::MissingBatch);
}

#[test]
fn agreeing_blocks_give_one_proof() {
    for count in [1u64, 3, 9] {
        let mut run = start(1, count);
        let order: Vec<usize> = (0..count as usize).rev().collect();
        replay_all(&mut run, &order);
        assert!(run.is_settled());
        let batch = BatchTask::from_calldata(&committed(1, count)).unwrap();
        let local = batch.build_batch(0, &contexts(1, count)).unwrap();
        let poe = run.finish().unwrap();
        assert_eq!(
            poe,
            Poe {
                batch_hash: local.hash(),
                prev_state_root: pob(1).prev_state_root,
                new_state_root: pob(count).state_root,
                withdrawal_root: pob(count).withdrawal_root,
            }
        );
        assert_eq!(poe.batch_hash, batch.hash());
    }
}

#[test]
fn altered_state_root_of_block_two_fails_the_run() {
    let batch = BatchTask::from_calldata(&committed(1, 3)).unwrap();
    let mut ctxs = contexts(1, 3);
    ctxs[1].pob.state_root = b256(0x55);
    let mut run = ScrollBatchVerifier::verify(&batch, ctxs, &table()).unwrap();
    while run.next().is_some() {}
    run.executed(0, Ok(agreed(&pob(1))));
    run.executed(1, Ok(agreed(&pob(2))));
    assert!(run.is_settled());
    assert_eq!(run.next(), None);
    run.executed(2, Ok(agreed(&pob(3))));
    let err = run.finish().unwrap_err();
    assert_eq!(
        err,
        ValidateError::Block {
            number: 2,
            origin: Box::new(ValidateError::StateRootMismatch {
                local: pob(2).state_root,
                remote: b256(0x55)
            })
        }
    );
    assert_eq!(
        err.root_cause(),
        &ValidateError::StateRootMismatch { local: pob(2).state_root, remote: b256(0x55) }
    );
}

#[test]
fn altered_withdrawal_root_fails_the_run() {
    let mut run = start(1, 2);
    while run.next().is_some() {}
    let mut result = agreed(&pob(2));
    result.new_withdrawal_root = b256(0x77);
    run.executed(1, Ok(result));
    let err = run.finish().unwrap_err();
    assert_eq!(
        err,
        ValidateError::Block {
            number: 2,
            origin: Box::new(ValidateError::WithdrawalRootMismatch {
                local: b256(0x77),
                remote: pob(2).withdrawal_root
            })
        }
    );
}

#[test]
fn engine_failure_fails_the_run_without_a_block_frame() {
    let mut run = start(1, 2);
    while run.next().is_some() {}
    run.executed(0, Err("out of gas".to_string()));
    let err = run.finish().unwrap_err();
    assert_eq!(err, ValidateError::Execution("out of gas".to_string()));
}

#[test]
fn state_root_is_checked_before_withdrawal_root() {
    let ctx = PobContext::new(pob(4), &table());
    let both = ExecutionResult { new_state_root: b256(1), new_withdrawal_root: b256(2) };
    assert_eq!(
        ScrollBatchVerifier::verify_result(both, &ctx),
        Err(ValidateError::StateRootMismatch { local: b256(1), remote: pob(4).state_root })
    );
    let good = agreed(&pob(4));
    assert_eq!(ScrollBatchVerifier::verify_result(good, &ctx), Ok(good));
}

#[test]
fn at_most_four_blocks_replay_at_once() {
    let mut run = start(1, 6);
    assert_eq!(run.next(), Some(0));
    assert_eq!(run.next(), Some(1));
    assert_eq!(run.next(), Some(2));
    assert_eq!(run.next(), Some(3));
    assert_eq!(run.next(), None);
    run.executed(3, Ok(agreed(&pob(4))));
    assert_eq!(run.next(), Some(4));
    assert_eq!(run.next(), None);
    assert!(!run.is_settled());
}

#[test]
fn version_is_selected_by_the_last_context() {
    let batch = BatchTask::from_calldata(&committed(48, 4)).unwrap();
    let err = ScrollBatchVerifier::verify(&batch, contexts(48, 4), &table()).unwrap_err();
    assert_eq!(
        err,
        ValidateError::Batch(BatchError::BuildChunkHash(Box::new(
            BatchError::MismatchBatchVersionAndBlock {
                block_batch_version: 0,
                parent_batch_version: 1
            }
        )))
    );
    let run = ScrollBatchVerifier::verify(&batch, contexts(48, 2), &table()).unwrap();
    assert_eq!(run.len(), 2);
    let later = BatchTask::from_calldata(&committed(50, 3)).unwrap();
    let run = ScrollBatchVerifier::verify(&later, contexts(50, 3), &table()).unwrap();
    let local = later.build_batch(1, &contexts(50, 3)).unwrap();
    assert_eq!(local.version(), 1);
    assert_eq!(run.batch_hash(), local.hash());
    assert_ne!(run.batch_hash(), later.hash());
}

#[test]
fn contexts_out_of_place_do_not_build() {
    let batch = BatchTask::from_calldata(&committed(1, 4)).unwrap();
    let mut ctxs = contexts(1, 4);
    ctxs.swap(1, 3);
    let err = batch.build_batch(0, &ctxs).unwrap_err();
    assert_eq!(
        err,
        BatchError::BuildChunkHash(Box::new(BatchError::UnexpectedBlock {
            want: (1, 0),
            got: (1, 2)
        }))
    );
    let err = batch.build_batch(0, &contexts(2, 2)).unwrap_err();
    assert_eq!(
        err,
        BatchError::BuildChunkHash(Box::new(BatchError::UnexpectedBlock {
            want: (0, 0),
            got: (1, 0)
        }))
    );
    let err = batch.build_batch(0, &contexts(3, 3)).unwrap_err();
    assert_eq!(
        err.root_cause(),
        &BatchError::UnexpectedBlock { want: (0, 0), got: (1, 1) }
    );
    let err = batch.build_batch(0, &contexts(5, 1)).unwrap_err();
    assert_eq!(err, BatchError::BuildChunkHash(Box::new(BatchError::UnknownBlock)));
    let err = batch.build_batch(0, &contexts(1, 5)).unwrap_err();
    assert_eq!(err.root_cause(), &BatchError::UnknownBlock);
}

#[test]
fn building_checks_version_and_presence_first() {
    let batch = BatchTask::from_calldata(&committed(1, 4)).unwrap();
    assert_eq!(
        batch.build_batch(5, &contexts(1, 4)).unwrap_err(),
        BatchError::UnknownBatchVersion(5)
    );
    assert_eq!(batch.build_batch(0, &[]).unwrap_err(), BatchError::MissingChunks);
}

#[test]
fn building_follows_the_chunks_of_the_committed_batch() {
    let batch = BatchTask::from_calldata(&committed(1, 4)).unwrap();
    let whole = batch.build_batch(0, &contexts(1, 4)).unwrap();
    assert_eq!(whole.encode(), committed(1, 4));
    assert_eq!(whole.hash(), batch.hash());
    let part = batch.build_batch(0, &contexts(1, 3)).unwrap();
    assert_eq!(part.num_chunks(), 2);
    assert_eq!(part.chunk_len(0), 1);
    assert_eq!(part.chunk_len(1), 2);
    assert_eq!(part.id(), 7);
    assert_ne!(part.hash(), batch.hash());
    let head = batch.build_batch(0, &contexts(1, 1)).unwrap();
    assert_eq!(head.num_chunks(), 1);
}

#[test]
fn built_batch_round_trips_through_its_committed_form() {
    let batch = BatchTask::from_calldata(&committed(50, 3)).unwrap();
    for version in [0u8, 1u8] {
        let table = HardforkConfig::new(vec![Hardfork { block: 0, time: 0, version }]);
        let ctxs: Vec<PobContext> =
            (50..53).map(|n| PobContext::new(pob(n), &table)).collect();
        let built = batch.build_batch(version, &ctxs).unwrap();
        let decoded = BatchTask::from_calldata(&built.encode()).unwrap();
        assert_eq!(decoded.hash(), built.hash());
        assert_eq!(decoded.version(), version);
    }
}

#[test]
fn built_batch_must_keep_the_nonce_counter() {
    let batch = BatchTask::from_calldata(&committed(1, 2)).unwrap();
    let mut ctxs = contexts(1, 2);
    ctxs[0].pob.block.num_l1_txs = 3;
    ctxs[0].pob.block.l1_nonce = 2;
    ctxs[1].pob.block.l1_nonce = 7;
    let err = batch.build_batch(0, &ctxs).unwrap_err();
    assert!(matches!(
        err,
        BatchError::InvalidL1Nonce {
            expect: 5,
            current: 7,
            batch_id: 7,
            chunk_id: 1,
            block_id: 0,
            ..
        }
    ));
}

#[test]
fn cache_key_names_batch_range_and_inputs() {
    let verifier = ScrollBatchVerifier::new(None, None);
    let key = verifier.cache_key(&committed(20, 5), b256(9)).unwrap();
    assert_eq!(key, (7, 20, 24, b256(9)));
    let err = verifier.cache_key(&[0, 1, 2], b256(9)).unwrap_err();
    assert_eq!(
        err,
        ValidateError::Batch(BatchError::ParseBatchTaskFromCalldata(Box::new(
            BatchError::InvalidDABatchData { version: 0, want_at_least: 10, got: 3 }
        )))
    );
}

#[test]
fn contexts_are_generated_only_with_an_endpoint() {
    let without = ScrollBatchVerifier::new(None, None);
    assert!(without.with_context());
    assert_eq!(without.execution_endpoint(), None);
    assert_eq!(without.generate_context(1, 3), Err(ValidateError::RequireExecutionEndpoint));
    let timeout = std::time::Duration::from_secs(3);
    let with = ScrollBatchVerifier::new(Some("http://localhost:8545"), Some(timeout));
    assert!(!with.with_context());
    assert_eq!(with.execution_endpoint(), Some("http://localhost:8545"));
    assert_eq!(with.call_timeout(), Some(timeout));
    assert_eq!(with.generate_context(5, 8), Ok(vec![5, 6, 7, 8]));
    assert_eq!(with.generate_context(8, 8), Ok(vec![8]));
    assert_eq!(with.generate_context(9, 8), Ok(vec![]));
    assert_eq!(
        with.generate_context(u64::MAX - 1, u64::MAX),
        Ok(vec![u64::MAX - 1, u64::MAX])
    );
}

#[test]
fn trace_outcomes_name_the_block() {
    assert_eq!(ScrollBatchVerifier::trace_outcome(5, Ok(Some(pob(5)))), Ok(pob(5)));
    assert_eq!(
        ScrollBatchVerifier::trace_outcome(5, Ok(None)),
        Err(ValidateError::FailGenPob)
    );
    assert_eq!(
        ScrollBatchVerifier::trace_outcome(5, Err("connection refused".to_string())),
        Err(ValidateError::FailGenBlockTrace {
            number: 5,
            origin: Box::new(ValidateError::Eth("connection refused".to_string()))
        })
    );
}

#[test]
fn prove_decodes_stages_and_starts_the_run() {
    let verifier = ScrollBatchVerifier::new(None, None);
    let pobs: Vec<Pob> = (1..4).map(pob).collect();
    let mut run = verifier.prove(&pobs, &committed(1, 3), &table()).unwrap();
    assert_eq!(run.len(), 3);
    assert_eq!(run.context(2).pob, pob(3));
    assert_eq!(run.context(2).batch_version(), 0);
    replay_all(&mut run, &[1, 0, 2]);
    let poe = run.finish().unwrap();
    assert_eq!(poe.prev_state_root, pob(1).prev_state_root);
    assert_eq!(poe.new_state_root, pob(3).state_root);
    let err = verifier.prove(&pobs, &[9], &table()).unwrap_err();
    assert_eq!(
        err,
        ValidateError::Batch(BatchError::ParseBatchTaskFromCalldata(Box::new(
            BatchError::UnknownBatchVersion(9)
        )))
    );
    let err = verifier.prove(&[], &committed(1, 3), &table()).unwrap_err();
    assert_eq!(err, ValidateError::MissingBatch);
}

#[test]
fn merging_takes_the_ends_of_the_sequence() {
    let fragments: Vec<Poe> = (1..4).map(|n| Poe::of_block(pob(n).prev_state_root, agreed(&pob(n)))).collect();
    assert_eq!(fragments[0].batch_hash, B256::zero());
    let merged = Poe::merge(b256(0x44), &fragments).unwrap();
    assert_eq!(
        merged,
        Poe {
            batch_hash: b256(0x44),
            prev_state_root: pob(1).prev_state_root,
            new_state_root: pob(3).state_root,
            withdrawal_root: pob(3).withdrawal_root,
        }
    );
    assert_eq!(Poe::merge(b256(0x44), &[]), None);
    assert_eq!(Poe::default().new_state_root, B256::zero());
}

#[test]
fn context_exposes_what_it_stages() {
    let ctx = PobContext::new(pob(60), &table());
    assert_eq!(ctx.chain_id(), 534352);
    assert_eq!(ctx.number(), 60);
    assert_eq!(ctx.timestamp(), 1060);
    assert_eq!(ctx.prev_state_root(), pob(60).prev_state_root);
    assert_eq!(ctx.state_root(), pob(60).state_root);
    assert_eq!(ctx.withdrawal_root(), pob(60).withdrawal_root);
    assert_eq!(ctx.batch_version(), 1);
    assert!(b256(1).same(&b256(1)));
    assert!(!b256(1).same(&b256(2)));
}

#[test]
fn a_revoked_run_replays_nothing_more() {
    let mut run = start(1, 6);
    assert_eq!(run.next(), Some(0));
    run.revoke();
    assert_eq!(run.next(), None);
    run.executed(0, Ok(agreed(&pob(1))));
    assert_eq!(run.next(), None);
    assert!(!run.is_settled());
}

#[test]
fn proving_the_committed_form_of_a_built_batch_binds_its_hash() {
    let verifier = ScrollBatchVerifier::new(None, None);
    let template = BatchTask::from_calldata(&committed(50, 7)).unwrap();
    let pobs: Vec<Pob> = (50..57).map(pob).collect();
    let built = template.build_batch(1, &contexts(50, 7)).unwrap();
    let batch_data = built.encode();
    let decoded = BatchTask::from_calldata(&batch_data).unwrap();
    assert_eq!(decoded.hash(), built.hash());
    let mut run = verifier.prove(&pobs, &batch_data, &table()).unwrap();
    replay_all(&mut run, &[4, 0, 6, 2, 5, 1, 3]);
    let poe = run.finish().unwrap();
    assert_eq!(poe.batch_hash, built.hash());
    assert_eq!(poe.prev_state_root, pob(50).prev_state_root);
    assert_eq!(poe.new_state_root, pob(56).state_root);
    assert_eq!(poe.withdrawal_root, pob(56).withdrawal_root);
}

#[test]
fn fetched_inputs_come_in_block_order() {
    let verifier = ScrollBatchVerifier::new(Some("http://localhost:8545"), None);
    let numbers = verifier.generate_context(20, 29).unwrap();
    let mut run: scroll_verifier::parallel::Parallel<Pob, ValidateError> =
        scroll_verifier::parallel::Parallel::new(numbers.len(), 4);
    let mut running: Vec<usize> = Vec::new();
    let mut turn = 0usize;
    loop {
        while let Some(i) = run.dispatch() {
            running.push(i);
        }
        if running.is_empty() {
            break;
        }
        turn += 1;
        let i = running.remove((turn * 7) % running.len());
        let fetched = ScrollBatchVerifier::trace_outcome(numbers[i], Ok(Some(pob(numbers[i]))));
        run.complete(i, fetched);
    }
    let expected: Vec<Pob> = (20..30).map(pob).collect();
    assert_eq!(run.finish(), Ok(expected));
}
