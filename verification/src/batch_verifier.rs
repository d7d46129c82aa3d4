//! The batch verifier: what it decides, step by step.
//!
//! A verification run goes from the committed batch and the contexts to a
//! proof of execution. The verifier decodes, selects the version, builds the
//! local batch and checks every replayed block; replaying itself, and fetching
//! traces, is the work of whoever drives the run. A run hands out contexts to
//! replay through [`VerifyRun::next`], takes what the execution engine gave
//! through [`VerifyRun::executed`], and ends in [`VerifyRun::finish`].

use crate::assemble::copy_block;
use crate::batch::BatchTask;
use crate::context::{context_blocks, context_versions, ExecutionResult, Pob, PobContext, Poe};
use crate::error::{ValidateError, ValidateErrorView};
use crate::hardfork::{version_at, HardforkConfig};
use crate::layout::{batch_hash, build, decode};
use crate::parallel::{handed_out_at, running_count, Parallel, Slot, WORKERS};
use crate::primitives::B256;
use std::time::Duration;
use vstd::prelude::*;

verus! {

/// The batch version that a run over the contexts `s` selects: the version
/// in force at the last of them.
pub open spec fn selected_version(forks: Seq<crate::hardfork::Hardfork>, s: Seq<PobContext>) -> u8
    recommends
        s.len() > 0,
{
    version_at(forks, s.last().pob.block.number, s.last().pob.block.timestamp)
}

/// What replaying the block of `ctx` comes to, given what the execution
/// engine returned. The fragment of a block whose roots agree, over views:
/// (previous state root, new state root, withdrawal root).
pub open spec fn verdict(ctx: PobContext, outcome: Result<ExecutionResult, String>) -> Result<
    (Seq<u8>, Seq<u8>, Seq<u8>),
    ValidateErrorView,
> {
    match outcome {
        Err(text) => Err(ValidateErrorView::Execution(text@)),
        Ok(res) => if res.new_state_root@ != ctx.pob.state_root@ {
            Err(
                ValidateErrorView::Block {
                    number: ctx.pob.block.number,
                    origin: Box::new(
                        ValidateErrorView::StateRootMismatch {
                            local: res.new_state_root@,
                            remote: ctx.pob.state_root@,
                        },
                    ),
                },
            )
        } else if res.new_withdrawal_root@ != ctx.pob.withdrawal_root@ {
            Err(
                ValidateErrorView::Block {
                    number: ctx.pob.block.number,
                    origin: Box::new(
                        ValidateErrorView::WithdrawalRootMismatch {
                            local: res.new_withdrawal_root@,
                            remote: ctx.pob.withdrawal_root@,
                        },
                    ),
                },
            )
        } else {
            Ok((ctx.pob.prev_state_root@, ctx.pob.state_root@, ctx.pob.withdrawal_root@))
        },
    }
}

/// Whether `p` is the fragment of the block of `ctx` with the roots claimed
/// for it.
pub open spec fn fragment_of(ctx: PobContext, p: Poe) -> bool {
    &&& p.prev_state_root@ == ctx.pob.prev_state_root@
    &&& p.new_state_root@ == ctx.pob.state_root@
    &&& p.withdrawal_root@ == ctx.pob.withdrawal_root@
}

/// One step of a run: the context at `i` was being replayed, the engine
/// returned `res` for it, and the slot at `i` takes the block's fragment.
pub open spec fn replayed_at(
    a: Seq<Slot<Poe>>,
    b: Seq<Slot<Poe>>,
    i: int,
    ctx: PobContext,
    res: ExecutionResult,
) -> bool {
    &&& 0 <= i < a.len()
    &&& a[i] is Running
    &&& b.len() == a.len()
    &&& b[i] is Done
    &&& b[i]->Done_0.batch_hash@ == Seq::new(32, |k: int| 0u8)
    &&& b[i]->Done_0.prev_state_root == ctx.pob.prev_state_root
    &&& b[i]->Done_0.new_state_root == res.new_state_root
    &&& b[i]->Done_0.withdrawal_root == res.new_withdrawal_root
    &&& forall|j: int| 0 <= j < a.len() && j != i ==> b[j] == a[j]
}

/// Whether `poe` is the proof that merging the fragments in `slots` under
/// the batch hash `hash` gives: it starts where the first fragment starts
/// and ends where the last one ends.
pub open spec fn merged_from(poe: Poe, hash: B256, slots: Seq<Slot<Poe>>) -> bool {
    &&& slots.len() > 0
    &&& slots[0] is Done
    &&& slots.last() is Done
    &&& poe.batch_hash == hash
    &&& poe.prev_state_root == slots[0]->Done_0.prev_state_root
    &&& poe.new_state_root == slots.last()->Done_0.new_state_root
    &&& poe.withdrawal_root == slots.last()->Done_0.withdrawal_root
}

/// The blocks of the inputs `s`, in order.
pub open spec fn pob_blocks(s: Seq<Pob>) -> Seq<crate::layout::BlockView> {
    Seq::new(s.len(), |i: int| s[i].block@)
}

/// The batch versions in force at the blocks of the inputs `s`, in order.
pub open spec fn pob_versions(forks: Seq<crate::hardfork::Hardfork>, s: Seq<Pob>) -> Seq<u8> {
    Seq::new(s.len(), |i: int| version_at(forks, s[i].block.number, s[i].block.timestamp))
}

/// Whether `ctxs` are the contexts of the inputs `pobs`, one for one and in
/// order, each with the input's content and the version in force at its
/// block.
pub open spec fn staged(
    forks: Seq<crate::hardfork::Hardfork>,
    pobs: Seq<Pob>,
    ctxs: Seq<PobContext>,
) -> bool {
    &&& ctxs.len() == pobs.len()
    &&& forall|i: int|
        0 <= i < ctxs.len() ==> {
            &&& (#[trigger] ctxs[i]).pob.chain_id == pobs[i].chain_id
            &&& ctxs[i].pob.block@ == pobs[i].block@
            &&& ctxs[i].pob.prev_state_root == pobs[i].prev_state_root
            &&& ctxs[i].pob.state_root == pobs[i].state_root
            &&& ctxs[i].pob.withdrawal_root == pobs[i].withdrawal_root
            &&& ctxs[i].batch_version == version_at(
                forks,
                pobs[i].block.number,
                pobs[i].block.timestamp,
            )
        }
}

/// A copy of `p`.
pub fn copy_pob(p: &Pob) -> (r: Pob)
    ensures
        r.chain_id == p.chain_id,
        r.block@ == p.block@,
        r.prev_state_root == p.prev_state_root,
        r.state_root == p.state_root,
        r.withdrawal_root == p.withdrawal_root,
{
    Pob {
        chain_id: p.chain_id,
        block: copy_block(&p.block),
        prev_state_root: p.prev_state_root,
        state_root: p.state_root,
        withdrawal_root: p.withdrawal_root,
    }
}

/// The verifier: where traces come from, if from anywhere.
#[derive(Clone, Debug)]
pub struct ScrollBatchVerifier {
    el: Option<String>,
    call_timeout: Option<Duration>,
}

/// A verification run that has its local batch and replays its contexts.
#[derive(Debug)]
pub struct VerifyRun {
    batch_hash: B256,
    contexts: Vec<PobContext>,
    replay: Parallel<Poe, ValidateError>,
}

impl ScrollBatchVerifier {
    /// The URL of the execution endpoint, if one is configured.
    pub closed spec fn endpoint(&self) -> Option<Seq<char>> {
        match self.el {
            Some(url) => Some(url@),
            None => None,
        }
    }

    /// The timeout for calls to the execution endpoint, if one is set.
    pub closed spec fn timeout(&self) -> Option<Duration> {
        self.call_timeout
    }

    /// A verifier that fetches traces from the execution endpoint at `el`,
    /// or one that is given its contexts where `el` is `None`.
    pub fn new(el: Option<&str>, call_timeout: Option<Duration>) -> (r: Self)
        ensures
            r.endpoint() == match el {
                Some(url) => Some(url@),
                None => None,
            },
            r.timeout() == call_timeout,
    {
        let el = match el {
            Some(url) => Some(url.to_owned()),
            None => None,
        };
        ScrollBatchVerifier { el, call_timeout }
    }

    /// The URL of the execution endpoint, if one is configured.
    pub fn execution_endpoint(&self) -> (r: Option<&str>)
        ensures
            match r {
                Some(url) => self.endpoint() == Some(url@),
                None => self.endpoint() is None,
            },
    {
        match &self.el {
            Some(url) => Some(url.as_str()),
            None => None,
        }
    }

    /// The timeout for calls to the execution endpoint.
    pub fn call_timeout(&self) -> (r: Option<Duration>)
        ensures
            r == self.timeout(),
    {
        self.call_timeout
    }

    /// Whether the verifier must be given its contexts: it has no endpoint to
    /// fetch traces from.
    pub fn with_context(&self) -> (r: bool)
        ensures
            r == self.endpoint() is None,
    {
        self.el.is_none()
    }

    /// The numbers of the blocks whose traces make the contexts of the
    /// inclusive range from `start_block` to `end_block`, in order. Fails
    /// where no execution endpoint is configured.
    pub fn generate_context(&self, start_block: u64, end_block: u64) -> (r: Result<
        Vec<u64>,
        ValidateError,
    >)
        ensures
            self.endpoint() is None ==> r is Err && r->Err_0@
                == ValidateErrorView::RequireExecutionEndpoint,
            self.endpoint() is Some ==> r is Ok && r->Ok_0@ == Seq::new(
                if start_block <= end_block {
                    (end_block - start_block + 1) as nat
                } else {
                    0nat
                },
                |i: int| (start_block + i) as u64,
            ),
    {
        if self.el.is_none() {
            return Err(ValidateError::RequireExecutionEndpoint);
        }
        let mut blocks: Vec<u64> = Vec::new();
        if start_block > end_block {
            assert(blocks@ =~= Seq::new(0nat, |i: int| (start_block + i) as u64));
            return Ok(blocks);
        }
        let mut n: u64 = start_block;
        loop
            invariant
                self.el is Some,
                start_block <= n <= end_block,
                blocks@ == Seq::new((n - start_block) as nat, |i: int| (start_block + i) as u64),
            decreases end_block - n,
        {
            blocks.push(n);
            assert(blocks@ =~= Seq::new(
                (n - start_block + 1) as nat,
                |i: int| (start_block + i) as u64,
            ));
            if n == end_block {
                return Ok(blocks);
            }
            n += 1;
        }
    }

    /// What fetching the trace of block `number` comes to: `fetched` is the
    /// endpoint's answer, turned into a proof-of-block input where that was
    /// possible.
    pub fn trace_outcome(number: u64, fetched: Result<Option<Pob>, String>) -> (r: Result<
        Pob,
        ValidateError,
    >)
        ensures
            match fetched {
                Err(text) => r is Err && r->Err_0@ == (ValidateErrorView::FailGenBlockTrace {
                    number,
                    origin: Box::new(ValidateErrorView::Eth(text@)),
                }),
                Ok(None) => r is Err && r->Err_0@ == ValidateErrorView::FailGenPob,
                Ok(Some(pob)) => r == Ok::<Pob, ValidateError>(pob),
            },
    {
        match fetched {
            Err(text) => Err(ValidateError::Eth(text).in_trace_fetch(number)),
            Ok(None) => Err(ValidateError::FailGenPob),
            Ok(Some(pob)) => Ok(pob),
        }
    }

    /// The key under which the result of verifying the committed batch
    /// `batch_data` against the inputs of hash `pob_hash` can be kept: the
    /// batch's id, its first and last block numbers, and `pob_hash`.
    pub fn cache_key(&self, batch_data: &[u8], pob_hash: B256) -> (r: Result<
        (u64, u64, u64, B256),
        ValidateError,
    >)
        ensures
            match decode(batch_data@) {
                Ok(b) => r == Ok::<(u64, u64, u64, B256), ValidateError>(
                    (b.id, b.blocks[0].number, b.blocks.last().number, pob_hash),
                ),
                Err(e) => r is Err && r->Err_0@ == ValidateErrorView::Batch(e),
            },
    {
        let batch = match BatchTask::from_calldata(batch_data) {
            Err(e) => {
                return Err(ValidateError::Batch(e));
            },
            Ok(b) => b,
        };
        let start_block = match batch.start() {
            Some(n) => n,
            None => 0,
        };
        let end_block = match batch.end() {
            Some(n) => n,
            None => 0,
        };
        Ok((batch.id(), start_block, end_block, pob_hash))
    }

    /// The contexts of `pob_list`, in order, under the table `hardfork`.
    pub fn stage(pob_list: &[Pob], hardfork: &HardforkConfig) -> (r: Vec<PobContext>)
        ensures
            staged(hardfork.forks@, pob_list@, r@),
    {
        let mut out: Vec<PobContext> = Vec::new();
        let mut i: usize = 0;
        while i < pob_list.len()
            invariant
                i <= pob_list@.len(),
                out@.len() == i,
                forall|j: int|
                    0 <= j < i ==> {
                        &&& (#[trigger] out@[j]).pob.chain_id == pob_list@[j].chain_id
                        &&& out@[j].pob.block@ == pob_list@[j].block@
                        &&& out@[j].pob.prev_state_root == pob_list@[j].prev_state_root
                        &&& out@[j].pob.state_root == pob_list@[j].state_root
                        &&& out@[j].pob.withdrawal_root == pob_list@[j].withdrawal_root
                        &&& out@[j].batch_version == version_at(
                            hardfork.forks@,
                            pob_list@[j].block.number,
                            pob_list@[j].block.timestamp,
                        )
                    },
            decreases pob_list@.len() - i,
        {
            out.push(PobContext::new(copy_pob(&pob_list[i]), hardfork));
            i += 1;
        }
        out
    }

    /// Starts the verification of the committed batch `batch_data` against
    /// the inputs `pob_list`: decodes the batch, stages one context for each
    /// input, in order, and starts the run over them.
    pub fn prove(&self, pob_list: &[Pob], batch_data: &[u8], hardfork: &HardforkConfig) -> (r:
        Result<VerifyRun, ValidateError>)
        ensures
            match decode(batch_data@) {
                Err(e) => r is Err && r->Err_0@ == ValidateErrorView::Batch(e),
                Ok(b) => if pob_list@.len() == 0 {
                    r is Err && r->Err_0@ == ValidateErrorView::MissingBatch
                } else {
                    match build(
                        b,
                        version_at(
                            hardfork.forks@,
                            pob_list@.last().block.number,
                            pob_list@.last().block.timestamp,
                        ),
                        pob_blocks(pob_list@),
                        pob_versions(hardfork.forks@, pob_list@),
                    ) {
                        Err(e) => r is Err && r->Err_0@ == ValidateErrorView::Batch(e),
                        Ok(local) => {
                            &&& r is Ok
                            &&& r->Ok_0.wf()
                            &&& r->Ok_0.fresh()
                            &&& r->Ok_0.hash()@ == batch_hash(local)
                            &&& staged(hardfork.forks@, pob_list@, r->Ok_0.contexts())
                        },
                    }
                },
            },
    {
        let batch = match BatchTask::from_calldata(batch_data) {
            Err(e) => {
                return Err(ValidateError::Batch(e));
            },
            Ok(b) => b,
        };
        let ctx_list = Self::stage(pob_list, hardfork);
        proof {
            assert(context_blocks(ctx_list@) =~= pob_blocks(pob_list@));
            assert(context_versions(ctx_list@) =~= pob_versions(hardfork.forks@, pob_list@));
        }
        Self::verify(&batch, ctx_list, hardfork)
    }

    /// Starts the verification of `batch` against `ctx_list`. Selects the
    /// batch version in force at the last context, builds the local batch
    /// from the contexts at that version, and returns the run that replays
    /// them. There is no run over no context.
    pub fn verify(batch: &BatchTask, ctx_list: Vec<PobContext>, hardfork: &HardforkConfig) -> (r:
        Result<VerifyRun, ValidateError>)
        ensures
            ctx_list@.len() == 0 ==> r is Err && r->Err_0@ == ValidateErrorView::MissingBatch,
            ctx_list@.len() > 0 ==> match build(
                batch@,
                selected_version(hardfork.forks@, ctx_list@),
                context_blocks(ctx_list@),
                context_versions(ctx_list@),
            ) {
                Err(e) => r is Err && r->Err_0@ == ValidateErrorView::Batch(e),
                Ok(b) => {
                    &&& r is Ok
                    &&& r->Ok_0.wf()
                    &&& r->Ok_0.fresh()
                    &&& r->Ok_0.hash()@ == batch_hash(b)
                    &&& r->Ok_0.contexts() == ctx_list@
                },
            },
    {
        let n = ctx_list.len();
        if n == 0 {
            return Err(ValidateError::MissingBatch);
        }
        let block_number = ctx_list[n - 1].number();
        let block_time = ctx_list[n - 1].timestamp();
        let batch_version = hardfork.batch_version(block_number, block_time);
        let new_batch = match batch.build_batch(batch_version, ctx_list.as_slice()) {
            Err(e) => {
                return Err(ValidateError::Batch(e));
            },
            Ok(b) => b,
        };
        let batch_hash = new_batch.hash();
        let replay: Parallel<Poe, ValidateError> = Parallel::new(n, WORKERS);
        Ok(VerifyRun { batch_hash, contexts: ctx_list, replay })
    }

    /// Checks what replaying the block of `ctx` gave against the roots
    /// claimed for it.
    pub fn verify_result(result: ExecutionResult, ctx: &PobContext) -> (r: Result<
        ExecutionResult,
        ValidateError,
    >)
        ensures
            result.new_state_root@ != ctx.pob.state_root@ ==> r is Err && r->Err_0@ == (
            ValidateErrorView::StateRootMismatch {
                local: result.new_state_root@,
                remote: ctx.pob.state_root@,
            }),
            result.new_state_root@ == ctx.pob.state_root@ && result.new_withdrawal_root@
                != ctx.pob.withdrawal_root@ ==> r is Err && r->Err_0@ == (
            ValidateErrorView::WithdrawalRootMismatch {
                local: result.new_withdrawal_root@,
                remote: ctx.pob.withdrawal_root@,
            }),
            result.new_state_root@ == ctx.pob.state_root@ && result.new_withdrawal_root@
                == ctx.pob.withdrawal_root@ ==> r == Ok::<ExecutionResult, ValidateError>(result),
    {
        if !result.new_state_root.same(&ctx.state_root()) {
            return Err(
                ValidateError::StateRootMismatch {
                    local: result.new_state_root,
                    remote: ctx.state_root(),
                },
            );
        }
        if !result.new_withdrawal_root.same(&ctx.withdrawal_root()) {
            return Err(
                ValidateError::WithdrawalRootMismatch {
                    local: result.new_withdrawal_root,
                    remote: ctx.withdrawal_root(),
                },
            );
        }
        Ok(result)
    }

    /// What replaying the block of `ctx` comes to, given what the execution
    /// engine returned: the block's proof fragment, the engine's failure, or
    /// a root mismatch in the frame of the block.
    pub fn block_outcome(ctx: &PobContext, outcome: Result<ExecutionResult, String>) -> (r:
        Result<Poe, ValidateError>)
        ensures
            match verdict(*ctx, outcome) {
                Err(e) => r is Err && r->Err_0@ == e,
                Ok(roots) => {
                    &&& r is Ok
                    &&& fragment_of(*ctx, r->Ok_0)
                    &&& r->Ok_0.batch_hash@ == Seq::new(32, |i: int| 0u8)
                    &&& r->Ok_0.prev_state_root == ctx.pob.prev_state_root
                    &&& r->Ok_0.new_state_root == outcome->Ok_0.new_state_root
                    &&& r->Ok_0.withdrawal_root == outcome->Ok_0.new_withdrawal_root
                },
            },
    {
        match outcome {
            Err(text) => Err(ValidateError::Execution(text)),
            Ok(result) => match Self::verify_result(result, ctx) {
                Err(e) => Err(e.in_block(ctx.number())),
                Ok(result) => Ok(Poe::of_block(ctx.prev_state_root(), result)),
            },
        }
    }
}

impl VerifyRun {
    /// The hash of the locally built batch.
    pub closed spec fn hash(&self) -> B256 {
        self.batch_hash
    }

    /// The contexts of the run, in order.
    pub closed spec fn contexts(&self) -> Seq<PobContext> {
        self.contexts@
    }

    /// The state of every context's replay.
    pub closed spec fn slots(&self) -> Seq<Slot<Poe>> {
        self.replay.slots()
    }

    /// The first failure reported, if any.
    pub closed spec fn failure(&self) -> Option<ValidateError> {
        self.replay.failure()
    }

    /// Whether the coordinator below the run is in order.
    pub closed spec fn coordinated(&self) -> bool {
        self.replay.wf() && self.replay.limit() == WORKERS
    }

    /// Whether the run may still hand out contexts: it was not revoked.
    pub closed spec fn alive(&self) -> bool {
        self.replay.alive()
    }

    /// Whether another context may be handed out now: the run is alive, none
    /// has failed, one is waiting, and fewer than four are being replayed.
    pub open spec fn can_dispatch(&self) -> bool {
        &&& self.alive()
        &&& self.failure() is None
        &&& exists|i: int| 0 <= i < self.slots().len() && (#[trigger] self.slots()[i]) is Waiting
        &&& running_count(self.slots()) < WORKERS
    }

    /// The run holds a context, a slot for each context, and in each slot
    /// that is done the fragment of that context's block.
    pub open spec fn wf(&self) -> bool {
        &&& self.coordinated()
        &&& self.contexts().len() > 0
        &&& self.slots().len() == self.contexts().len()
        &&& forall|i: int|
            0 <= i < self.slots().len() && (#[trigger] self.slots()[i]) is Done ==> fragment_of(
                self.contexts()[i],
                self.slots()[i]->Done_0,
            )
    }

    /// No context has been handed out yet.
    pub open spec fn fresh(&self) -> bool {
        &&& self.alive()
        &&& self.failure() is None
        &&& forall|i: int| 0 <= i < self.slots().len() ==> (#[trigger] self.slots()[i]) is Waiting
    }

    /// Whether the run has its result: a failure, or a fragment for every
    /// context.
    pub open spec fn settled(&self) -> bool {
        self.failure() is Some || forall|i: int|
            0 <= i < self.slots().len() ==> (#[trigger] self.slots()[i]) is Done
    }

    /// Number of contexts.
    pub fn len(&self) -> (r: usize)
        ensures
            r == self.contexts().len(),
    {
        self.contexts.len()
    }

    /// The context at position `index`.
    pub fn context(&self, index: usize) -> (r: &PobContext)
        requires
            index < self.contexts().len(),
        ensures
            *r == self.contexts()[index as int],
    {
        &self.contexts[index]
    }

    /// The hash of the locally built batch.
    pub fn batch_hash(&self) -> (r: B256)
        ensures
            r == self.hash(),
    {
        self.batch_hash
    }

    /// Whether the context at `index` was handed out and has not reported.
    pub fn is_running(&self, index: usize) -> (r: bool)
        ensures
            r == (index < self.slots().len() && self.slots()[index as int] is Running),
    {
        self.replay.is_running(index)
    }

    /// Stops the run from handing out contexts: the liveness token of its
    /// driver was revoked. Contexts that are being replayed may still report.
    pub fn revoke(&mut self)
        requires
            old(self).wf(),
        ensures
            final(self).wf(),
            !final(self).alive(),
            final(self).hash() == old(self).hash(),
            final(self).contexts() == old(self).contexts(),
            final(self).failure() == old(self).failure(),
            final(self).slots() == old(self).slots(),
    {
        self.replay.revoke();
    }

    /// Hands out the next context to replay, in order, while the run is
    /// alive, none has failed and fewer than four are being replayed.
    pub fn next(&mut self) -> (r: Option<usize>)
        requires
            old(self).wf(),
        ensures
            final(self).wf(),
            final(self).alive() == old(self).alive(),
            final(self).hash() == old(self).hash(),
            final(self).contexts() == old(self).contexts(),
            final(self).failure() == old(self).failure(),
            r is Some <==> old(self).can_dispatch(),
            match r {
                Some(i) => {
                    &&& forall|j: int| 0 <= j < i ==> !(#[trigger] old(self).slots()[j] is Waiting)
                    &&& handed_out_at(old(self).slots(), final(self).slots(), i as int)
                },
                None => final(self).slots() == old(self).slots(),
            },
    {
        proof {
            let slots = self.replay.slots();
            let next = self.replay.next_index() as int;
            if next < slots.len() {
                assert(slots[next] is Waiting);
            }
        }
        let r = self.replay.dispatch();
        r
    }

    /// Takes what the execution engine returned for the context at `index`.
    /// A block whose roots agree fills its slot; the first block that does
    /// not, or that the engine failed on, fails the run.
    pub fn executed(&mut self, index: usize, outcome: Result<ExecutionResult, String>)
        requires
            old(self).wf(),
            index < old(self).slots().len(),
            old(self).slots()[index as int] is Running,
        ensures
            final(self).wf(),
            final(self).alive() == old(self).alive(),
            final(self).hash() == old(self).hash(),
            final(self).contexts() == old(self).contexts(),
            match verdict(old(self).contexts()[index as int], outcome) {
                Ok(roots) => {
                    &&& final(self).failure() == old(self).failure()
                    &&& replayed_at(
                        old(self).slots(),
                        final(self).slots(),
                        index as int,
                        old(self).contexts()[index as int],
                        outcome->Ok_0,
                    )
                },
                Err(e) => {
                    &&& final(self).slots() == old(self).slots().update(index as int, Slot::Failed)
                    &&& final(self).failure() is Some
                    &&& old(self).failure() is Some ==> final(self).failure() == old(
                        self,
                    ).failure()
                    &&& old(self).failure() is None ==> final(self).failure()->Some_0@ == e
                },
            },
    {
        let result = ScrollBatchVerifier::block_outcome(&self.contexts[index], outcome);
        self.replay.complete(index, result);
    }

    /// Whether the run has its result.
    pub fn is_settled(&self) -> (r: bool)
        requires
            self.wf(),
        ensures
            r == self.settled(),
    {
        self.replay.is_settled()
    }

    /// The result of a settled run: the first failure reported, or the one
    /// proof that binds the local batch's hash to the state root before the
    /// first block and the roots after the last.
    pub fn finish(self) -> (r: Result<Poe, ValidateError>)
        requires
            self.wf(),
            self.settled(),
        ensures
            (forall|i: int| 0 <= i < self.slots().len() ==> (#[trigger] self.slots()[i]) is Done)
                ==> r is Ok,
            match r {
                Ok(poe) => {
                    &&& self.failure() is None
                    &&& merged_from(poe, self.hash(), self.slots())
                    &&& poe.prev_state_root@ == self.contexts()[0].pob.prev_state_root@
                    &&& poe.new_state_root@ == self.contexts().last().pob.state_root@
                    &&& poe.withdrawal_root@ == self.contexts().last().pob.withdrawal_root@
                },
                Err(e) => self.failure() == Some(e),
            },
    {
        let VerifyRun { batch_hash, contexts: _, replay } = self;
        match replay.finish() {
            Err(e) => Err(e),
            Ok(fragments) => {
                let ghost n = fragments@.len() as int;
                assert(self.slots()[0] == Slot::Done(fragments@[0]));
                assert(self.slots()[n - 1] == Slot::Done(fragments@[n - 1]));
                match Poe::merge(batch_hash, fragments.as_slice()) {
                    Some(poe) => Ok(poe),
                    None => Err(ValidateError::MissingBatch),
                }
            },
        }
    }
}

} // verus!
