//! Coordination between persistent request scheduling and execution ownership.

use crate::engine::backend::{BackendError, BackendSubmissionId, ComputeBackend};
use crate::engine::execution::{
    event_views, segment_views, ExecutionBatch, ExecutionBatchEvent, ExecutionEventView,
    ExecutionPhase, ExecutionPlan, ExecutionPlanView, ExecutionSegment, ExecutionSegmentView,
    ExecutionTokenInput, PlanError, TokenInputView,
};
use crate::engine::model::ModelProvider;
use crate::engine::ownership::{lemma_filled_slots, lemma_owned_contains, lemma_owned_same};
use crate::engine::queues::{
    active_kind, belongs, fits, kind_of, lemma_moved_all, movable, moved_all, QueueKind,
};
use crate::engine::request::{RequestId, RequestSpec, RequestSpecView};
use crate::engine::runtime::{
    polled, released, released_after, submitted, CompletedExecutionBatch, ExecutionRuntime, RuntimeError,
    RuntimeStateError, RuntimeSubmission, RuntimeSubmissionView,
};
use crate::engine::scheduler::{
    event_defect, lemma_completed_slot, lemma_distinct_slots, lemma_filled, lemma_filled_keeps,
    lemma_member, lemma_no_event_defect, lemma_no_work_defect, lemma_owned_members,
    lemma_settled_after_move, lemma_settled_after_moves, lemma_slot_for, repeats_slot,
    work_slots, ScheduledWork, SchedulerError, SchedulerView, ServingScheduler,
};
use crate::engine::scheduler_laws::law_selected_work_is_submittable;
use crate::engine::serving::{
    ActiveRequestSlot, AdmissionError, RequestLifecycle, RequestSlotId, SlotView,
};
use crate::engine::serving_laws::reads_prompt;
use crate::engine::serving_links::{
    awaits, carries, lemma_links_admitted, lemma_links_confirmed, lemma_links_filled,
    lemma_links_kept, lemma_links_moved, lemma_links_moved_all, lemma_links_reclaimed,
    lemma_links_released, lemma_matching_events_apply, linked, live, owned_by_live,
};
use crate::engine::state::{InferenceStateSet, StateError, StateHandle};
use crate::engine::state_manager::{held, StateManager};
use std::collections::HashMap;
use vstd::prelude::*;

verus! {

broadcast use vstd::std_specs::hash::group_hash_axioms;

/// One committed sampled token, ready for a frontend to consume.
#[derive(Clone, Copy, Debug, Hash, PartialEq, Eq, Structural)]
pub struct GeneratedToken {
    pub request: RequestId,
    pub token: u32,
}

impl GeneratedToken {
    #[must_use]
    pub fn new(request: RequestId, token: u32) -> (r: Self)
        ensures
            r == (GeneratedToken { request, token }),
    {
        GeneratedToken { request, token }
    }

    #[must_use]
    pub fn request(self) -> (r: RequestId)
        ensures
            r == self.request,
    {
        self.request
    }

    #[must_use]
    pub fn token(self) -> (r: u32)
        ensures
            r == self.token,
    {
        self.token
    }
}

/// What one turn of the serving loop did.
#[derive(Clone, Copy, Debug, Hash, PartialEq, Eq, Structural)]
pub struct ServingIteration {
    pub completed_batches: usize,
    pub submitted: Option<BackendSubmissionId>,
}

impl ServingIteration {
    #[must_use]
    pub fn completed_batches(self) -> (r: usize)
        ensures
            r == self.completed_batches,
    {
        self.completed_batches
    }

    #[must_use]
    pub fn submitted(self) -> (r: Option<BackendSubmissionId>)
        ensures
            r == self.submitted,
    {
        self.submitted
    }
}

#[derive(Debug, PartialEq, Eq)]
pub enum ServingRuntimeError {
    PolicyMismatch,
    InvalidPrompt,
    PromptMissing(RequestId),
    DecodeTokenMissing(RequestId),
    SubmissionCollision(BackendSubmissionId),
    Plan(PlanError),
    Scheduler(SchedulerError),
    Runtime(RuntimeError),
}

/// A scheduler and an execution runtime that serve requests together.
pub struct ServingRuntime<P, B, S> {
    scheduler: ServingScheduler,
    runtime: ExecutionRuntime<P, B, S>,
    plan: ExecutionPlan,
    submissions: Vec<RuntimeSubmission>,
    prompt_tokens: HashMap<u64, Vec<u32>>,
    next_tokens: HashMap<u64, u32>,
    generated_tokens: Vec<GeneratedToken>,
}

/// What each submission holds, in the order of submission.
pub open spec fn submission_views(submissions: Seq<RuntimeSubmission>) -> Seq<
    RuntimeSubmissionView,
> {
    submissions.map_values(|submission: RuntimeSubmission| submission@)
}

/// The tokens that a serving runtime keeps for requests: prompts that are not fully
/// processed, the next decode input, and output that waits for the frontend.
#[verifier::ext_equal]
pub struct TokensView {
    pub prompts: Map<u64, Seq<u32>>,
    pub next: Map<u64, u32>,
    pub generated: Seq<GeneratedToken>,
}

/// What a serving runtime holds besides its execution runtime.
#[verifier::ext_equal]
pub struct ServingView {
    pub scheduler: SchedulerView,
    pub plan: ExecutionPlanView,
    pub submissions: Seq<RuntimeSubmissionView>,
    pub tokens: TokensView,
}

impl<P, B, S> View for ServingRuntime<P, B, S> {
    type V = ServingView;

    closed spec fn view(&self) -> ServingView {
        ServingView {
            scheduler: self.scheduler@,
            plan: self.plan@,
            submissions: submission_views(self.submissions@),
            tokens: TokensView {
                prompts: self.prompt_tokens@.map_values(|tokens: Vec<u32>| tokens@),
                next: self.next_tokens@,
                generated: self.generated_tokens@,
            },
        }
    }
}

impl TokensView {
    /// No tokens at all.
    pub open spec fn empty() -> TokensView {
        TokensView { prompts: Map::empty(), next: Map::empty(), generated: Seq::empty() }
    }

    /// The tokens after one completed event of a request that is now as given: output goes
    /// to the frontend unless the request was cancelled, and back into decoding where the
    /// request goes on; a prompt is dropped once it is processed.
    pub open spec fn after_event(self, slot: SlotView, event: ExecutionEventView) -> TokensView {
        let request = event.request@;
        TokensView {
            prompts: if event.phase is Prefill && slot.progress.prompt_processed
                == slot.progress.prompt_tokens {
                self.prompts.remove(request)
            } else {
                self.prompts
            },
            next: match event.output_token {
                Some(token) if slot.lifecycle is Runnable => self.next.insert(request, token),
                _ => self.next,
            },
            generated: match event.output_token {
                Some(token) if slot.lifecycle is Runnable
                    || slot.lifecycle is Completed => self.generated.push(
                    GeneratedToken { request: event.request, token },
                ),
                _ => self.generated,
            },
        }
    }

    /// The tokens after the first `n` events of a completion.
    pub open spec fn after_events(
        self,
        scheduler: SchedulerView,
        events: Seq<ExecutionEventView>,
        n: int,
    ) -> TokensView
        decreases n,
    {
        if n <= 0 {
            self
        } else {
            let event = events[n - 1];
            self.after_events(scheduler, events, n - 1).after_event(
                scheduler.slots.slot(scheduler.slot_for(event.request)),
                event,
            )
        }
    }

    /// The tokens without those of a request that was reclaimed. Output that was generated
    /// is kept.
    pub open spec fn without(self, request: u64) -> TokensView {
        TokensView {
            prompts: self.prompts.remove(request),
            next: self.next.remove(request),
            generated: self.generated,
        }
    }
}

impl ServingView {
    /// The scheduler is well formed and of the plan's policy, live submissions and requests
    /// in flight belong together, and every live submission holds its states.
    pub open spec fn wf(self) -> bool {
        &&& self.scheduler.wf()
        &&& self.plan.policy_version == self.scheduler.policy.version
        &&& linked(self.scheduler, self.submissions, self.plan.policy_version)
        &&& forall|k: int| 0 <= k < self.submissions.len() ==> (#[trigger] self.submissions[k]).waits()
    }

    /// Whether every request in flight is owned by a live submission. It holds from the start
    /// where the scheduler had nothing in flight, and every operation keeps it.
    pub open spec fn accounted(self) -> bool {
        owned_by_live(self.scheduler, self.submissions)
    }

    /// The runtime with another scheduler.
    pub open spec fn with_scheduler(self, scheduler: SchedulerView) -> ServingView {
        ServingView { scheduler, ..self }
    }

    /// Why a prompt is not admitted, if it is not.
    pub open spec fn prompt_refused(prompt: Seq<u32>) -> bool {
        prompt.len() == 0 || prompt.len() > u32::MAX
    }

    /// The runtime after an admission.
    pub open spec fn admitted(
        self,
        request: RequestSpecView,
        state: Seq<StateHandle>,
        prompt: Seq<u32>,
    ) -> ServingView {
        ServingView {
            scheduler: self.scheduler.admitted(request, state, prompt.len() as u32),
            tokens: TokensView {
                prompts: self.tokens.prompts.insert(request.id@, prompt),
                ..self.tokens
            },
            ..self
        }
    }

    /// Why selected work has no input, if it has none.
    pub open spec fn input_defect(self, work: ScheduledWork) -> Option<ServingRuntimeError> {
        let request = work.request@;
        if work.phase is Prefill {
            if !self.tokens.prompts.contains_key(request) {
                Some(ServingRuntimeError::PromptMissing(work.request))
            } else if work.state_position + work.token_count
                > self.tokens.prompts[request].len() {
                Some(ServingRuntimeError::Plan(PlanError::TokenInputRange))
            } else {
                None
            }
        } else if !self.tokens.next.contains_key(request) {
            Some(ServingRuntimeError::DecodeTokenMissing(work.request))
        } else {
            None
        }
    }

    /// The defect of the first work from `i` on that has no input.
    pub open spec fn first_input_defect(self, work: Seq<ScheduledWork>, i: int) -> Option<
        ServingRuntimeError,
    >
        decreases work.len() - i,
    {
        if i < 0 || i >= work.len() {
            None
        } else if self.input_defect(work[i]) is Some {
            self.input_defect(work[i])
        } else {
            self.first_input_defect(work, i + 1)
        }
    }

    /// The segment of selected work: a prompt chunk reads the prompt from the work's
    /// position on, a decode reads the token sampled last, and sampling is asked for where
    /// the work ends in an output token.
    pub open spec fn segment_for(self, work: ScheduledWork) -> ExecutionSegmentView {
        let request = work.request@;
        ExecutionSegmentView {
            request: work.request,
            phase: work.phase,
            token_count: work.token_count,
            state_position: work.state_position,
            state_requirements: self.plan.state_requirements,
            token_input: Some(
                if work.phase is Prefill {
                    TokenInputView::Prompt(
                        self.tokens.prompts[request].subrange(
                            work.state_position as int,
                            work.state_position + work.token_count,
                        ),
                    )
                } else {
                    TokenInputView::Decode(self.tokens.next[request])
                },
            ),
            sampling: if work.requests_output {
                Some(self.scheduler.slots.slot(work.slot).request.semantics.sampling)
            } else {
                None
            },
        }
    }

    /// The segments of selected work.
    pub open spec fn segments_for(self, work: Seq<ScheduledWork>) -> Seq<ExecutionSegmentView> {
        Seq::new(work.len(), |i: int| self.segment_for(work[i]))
    }

    /// The states of selected work.
    pub open spec fn states_of(self, work: Seq<ScheduledWork>) -> Seq<Seq<StateHandle>> {
        Seq::new(work.len(), |i: int| self.scheduler.slots.slot(work[i].slot).state->Some_0)
    }

    /// The runtime after a poll left a submission as given.
    pub open spec fn asked(self, k: int, left: RuntimeSubmissionView) -> ServingView {
        ServingView { submissions: self.submissions.update(k, left), ..self }
    }

    /// The runtime after the state of selected work was taken out of its slots.
    pub open spec fn prepared(self, work: Seq<ScheduledWork>) -> ServingView {
        let ids = work_slots(work);
        self.with_scheduler(self.scheduler.moved_all(ids, self.scheduler.lent(ids)))
    }

    /// The runtime after a backend took a submission of prepared work.
    pub open spec fn submitted(
        self,
        work: Seq<ScheduledWork>,
        submission: RuntimeSubmissionView,
    ) -> ServingView {
        let ids = work_slots(work);
        ServingView {
            scheduler: self.scheduler.moved_all(
                ids,
                self.scheduler.flying(ids, submission.backend_submission),
            ),
            submissions: self.submissions.push(submission),
            ..self
        }
    }

    /// The runtime after a submission of prepared work was refused: its requests have failed
    /// and hold the states that came back.
    pub open spec fn refused(
        self,
        work: Seq<ScheduledWork>,
        states: Seq<Seq<StateHandle>>,
    ) -> ServingView {
        let ids = work_slots(work);
        self.with_scheduler(
            self.scheduler.moved_all(ids, self.scheduler.failed(ids, states)).filled(),
        )
    }

    /// Whether a submission outcome fits prepared work.
    pub open spec fn fits_work(
        self,
        work: Seq<ScheduledWork>,
        submission: RuntimeSubmissionView,
    ) -> bool {
        &&& submission.batch.len() == work.len()
        &&& submission.policy_version == self.plan.policy_version
        &&& submission.waits()
        &&& forall|i: int|
            0 <= i < work.len() ==> awaits(
                self.scheduler.slots.slot((#[trigger] work[i]).slot),
                submission.batch[i],
            )
    }

    /// The runtime after a completed submission: its requests have moved on with their
    /// states, free places are filled, and its output is delivered.
    pub open spec fn completed(
        self,
        k: int,
        events: Seq<ExecutionEventView>,
        states: Seq<Seq<StateHandle>>,
    ) -> ServingView {
        let ids = self.scheduler.owned(self.submissions[k].backend_submission);
        let scheduler = self.scheduler.moved_all(
            ids,
            self.scheduler.completed(ids, events, states),
        ).filled();
        ServingView {
            scheduler,
            submissions: self.submissions.remove(k),
            tokens: self.tokens.after_events(scheduler, events, events.len() as int),
            ..self
        }
    }

    /// The runtime after a failed submission: its requests have failed and hold their
    /// states.
    pub open spec fn failed(self, k: int) -> ServingView {
        let ids = self.scheduler.owned(self.submissions[k].backend_submission);
        ServingView {
            scheduler: self.scheduler.moved_all(
                ids,
                self.scheduler.failed(ids, self.submissions[k].states->Some_0),
            ).filled(),
            submissions: self.submissions.remove(k),
            ..self
        }
    }

    /// As [`Self::wf`], except that submission `k` may have given up its states.
    pub open spec fn polled(self, k: int) -> bool {
        &&& 0 <= k < self.submissions.len()
        &&& self.scheduler.wf()
        &&& self.plan.policy_version == self.scheduler.policy.version
        &&& linked(self.scheduler, self.submissions, self.plan.policy_version)
        &&& forall|j: int|
            0 <= j < self.submissions.len() && j != k ==> (
            #[trigger] self.submissions[j]).waits()
    }
}

/// What a poll of a submission may answer: pending or failed with its states kept, or a
/// completion of exactly its work.
pub open spec fn answers(
    submission: RuntimeSubmissionView,
    outcome: Result<Option<CompletedExecutionBatch>, RuntimeError>,
) -> bool {
    match outcome {
        Ok(Some(completed)) => submission.accepts(completed.events())
            && completed.committed().len() == submission.batch.len(),
        _ => submission.waits(),
    }
}

/// Whether a reclamation fails with what the backend answered to the release of the physical
/// state, exactly where that failed.
pub open spec fn backend_refuses(
    answer: Result<(), BackendError>,
    r: Result<Option<ActiveRequestSlot>, ServingRuntimeError>,
) -> bool {
    match answer {
        Err(error) => r == Err::<Option<ActiveRequestSlot>, ServingRuntimeError>(
            ServingRuntimeError::Runtime(RuntimeError::Backend(error)),
        ),
        Ok(()) => !(r matches Err(ServingRuntimeError::Runtime(RuntimeError::Backend(_)))),
    }
}

/// What the outcome of a submission does to a runtime with prepared work: unless the backend
/// took it under an identity of its own, the states go back to the requests, which have
/// failed.
pub open spec fn settled(
    before: ServingView,
    work: Seq<ScheduledWork>,
    outcome: Result<RuntimeSubmission, RuntimeStateError>,
    after: ServingView,
    r: Result<BackendSubmissionId, ServingRuntimeError>,
) -> bool {
    match outcome {
        Ok(submission) => {
            let id = submission@.backend_submission;
            if live(before.submissions, id) {
                &&& r == Err::<BackendSubmissionId, ServingRuntimeError>(
                    ServingRuntimeError::SubmissionCollision(id),
                )
                &&& after == before.refused(work, submission@.states->Some_0)
            } else if before.scheduler.owned(id).len() > 0 {
                &&& r == Err::<BackendSubmissionId, ServingRuntimeError>(
                    ServingRuntimeError::Scheduler(SchedulerError::DuplicateSubmission(id)),
                )
                &&& after == before.refused(work, submission@.states->Some_0)
            } else {
                &&& r == Ok::<BackendSubmissionId, ServingRuntimeError>(id)
                &&& after == before.submitted(work, submission@)
            }
        },
        Err(refused) => {
            &&& r == Err::<BackendSubmissionId, ServingRuntimeError>(
                ServingRuntimeError::Runtime(refused.reason()),
            )
            &&& after == before.refused(work, refused.returned())
        },
    }
}

/// What submitting the next ready batch comes to: nothing where no work is selected or its
/// input is missing, and otherwise what the runtime's submission of exactly that work and
/// its states decides.
pub open spec fn batch_submitted<P: ModelProvider, B: ComputeBackend, S: StateManager>(
    runtime: ExecutionRuntime<P, B, S>,
    before: ServingView,
    runtime_after: ExecutionRuntime<P, B, S>,
    after: ServingView,
    r: Result<Option<BackendSubmissionId>, ServingRuntimeError>,
) -> bool {
    match before.scheduler.planned() {
        None => {
            &&& r == Err::<Option<BackendSubmissionId>, ServingRuntimeError>(
                ServingRuntimeError::Scheduler(SchedulerError::PositionOverflow),
            )
            &&& after == before
            &&& runtime_after == runtime
        },
        Some(work) => if work.len() == 0 {
            &&& r == Ok::<Option<BackendSubmissionId>, ServingRuntimeError>(None)
            &&& after == before
            &&& runtime_after == runtime
        } else {
            match before.first_input_defect(work, 0) {
                Some(error) => {
                    &&& r == Err::<Option<BackendSubmissionId>, ServingRuntimeError>(error)
                    &&& after == before
                    &&& runtime_after == runtime
                },
                None => exists|
                    outcome: Result<RuntimeSubmission, RuntimeStateError>,
                    id: Result<BackendSubmissionId, ServingRuntimeError>,
                |
                    {
                        &&& submitted(
                            runtime,
                            before.plan,
                            before.segments_for(work),
                            before.states_of(work),
                            runtime_after,
                            outcome,
                        )
                        &&& #[trigger] settled(before.prepared(work), work, outcome, after, id)
                        &&& match id {
                            Ok(id) => r == Ok::<Option<BackendSubmissionId>, ServingRuntimeError>(
                                Some(id),
                            ),
                            Err(error) => r == Err::<
                                Option<BackendSubmissionId>,
                                ServingRuntimeError,
                            >(error),
                        }
                    },
            }
        },
    }
}

/// What polling one live submission comes to: pending, it stays; completed, it is applied;
/// failed, it ends its requests with the states that it has left.
pub open spec fn next_polled<P: ModelProvider, B: ComputeBackend, S: StateManager>(
    runtime: ExecutionRuntime<P, B, S>,
    before: ServingView,
    k: int,
    left: RuntimeSubmissionView,
    outcome: Result<Option<CompletedExecutionBatch>, RuntimeError>,
    runtime_after: ExecutionRuntime<P, B, S>,
    after: ServingView,
    r: Result<bool, ServingRuntimeError>,
) -> bool {
    &&& 0 <= k < before.submissions.len()
    &&& polled(runtime, before.submissions[k], runtime_after, left, outcome)
    &&& match outcome {
        Ok(None) => {
            &&& r == Ok::<bool, ServingRuntimeError>(false)
            &&& after == before
        },
        Ok(Some(batch)) => {
            &&& r == Ok::<bool, ServingRuntimeError>(true)
            &&& after == before.completed(k, batch.events(), batch.committed())
        },
        Err(error) => {
            &&& r == Err::<bool, ServingRuntimeError>(ServingRuntimeError::Runtime(error))
            &&& after == before.asked(k, left).failed(k)
        },
    }
}

/// Where polling the live submissions stands: which of them is next, and how many have
/// completed.
pub struct PollState<P, B, S> {
    pub runtime: ExecutionRuntime<P, B, S>,
    pub view: ServingView,
    pub index: int,
    pub completed: int,
}

/// Whether one poll that did not fail leads from one state to the next: a completed
/// submission has left its place to the one behind it.
pub open spec fn poll_step<P: ModelProvider, B: ComputeBackend, S: StateManager>(
    before: PollState<P, B, S>,
    after: PollState<P, B, S>,
) -> bool {
    exists|
        left: RuntimeSubmissionView,
        outcome: Result<Option<CompletedExecutionBatch>, RuntimeError>,
        done: bool,
    |
        {
            &&& #[trigger] next_polled(
                before.runtime,
                before.view,
                before.index,
                left,
                outcome,
                after.runtime,
                after.view,
                Ok(done),
            )
            &&& after.index == before.index + (if done {
                0int
            } else {
                1
            })
            &&& after.completed == before.completed + (if done {
                1int
            } else {
                0
            })
        }
}

/// Whether a sequence of polls starts with the first of the live submissions.
pub open spec fn poll_trace<P: ModelProvider, B: ComputeBackend, S: StateManager>(
    runtime: ExecutionRuntime<P, B, S>,
    view: ServingView,
    trace: Seq<PollState<P, B, S>>,
) -> bool {
    &&& trace.len() > 0
    &&& trace[0] == (PollState { runtime, view, index: 0, completed: 0 })
    &&& forall|i: int| 0 <= i < trace.len() - 1 ==> poll_step(#[trigger] trace[i], trace[i + 1])
}

/// What polling the live submissions comes to: each is asked for once, in order, and its
/// answer applied, until all were asked for or one has failed.
pub open spec fn completions_polled<P: ModelProvider, B: ComputeBackend, S: StateManager>(
    runtime: ExecutionRuntime<P, B, S>,
    before: ServingView,
    runtime_after: ExecutionRuntime<P, B, S>,
    after: ServingView,
    r: Result<usize, ServingRuntimeError>,
) -> bool {
    exists|trace: Seq<PollState<P, B, S>>| #[trigger]
        poll_trace(runtime, before, trace) && match r {
            Ok(completed) => {
                let last = trace.last();
                &&& last.index == last.view.submissions.len()
                &&& completed == last.completed
                &&& after == last.view
                &&& runtime_after == last.runtime
            },
            Err(error) => {
                let last = trace.last();
                exists|
                    left: RuntimeSubmissionView,
                    outcome: Result<Option<CompletedExecutionBatch>, RuntimeError>,
                | #[trigger]
                    next_polled(
                        last.runtime,
                        last.view,
                        last.index,
                        left,
                        outcome,
                        runtime_after,
                        after,
                        Err(error),
                    )
            },
        }
}

/// What one turn of the serving loop comes to: the polls, and the submission of the next
/// ready batch unless a poll failed.
pub open spec fn driven<P: ModelProvider, B: ComputeBackend, S: StateManager>(
    runtime: ExecutionRuntime<P, B, S>,
    before: ServingView,
    runtime_after: ExecutionRuntime<P, B, S>,
    after: ServingView,
    r: Result<ServingIteration, ServingRuntimeError>,
) -> bool {
    exists|
        middle: ExecutionRuntime<P, B, S>,
        view: ServingView,
        first: Result<usize, ServingRuntimeError>,
    | #[trigger]
        completions_polled(runtime, before, middle, view, first) && match first {
            Err(error) => {
                &&& r == Err::<ServingIteration, ServingRuntimeError>(error)
                &&& after == view
                &&& runtime_after == middle
            },
            Ok(completed_batches) => exists|
                second: Result<Option<BackendSubmissionId>, ServingRuntimeError>,
            | #[trigger]
                batch_submitted(middle, view, runtime_after, after, second) && match second {
                    Ok(submitted) => r == Ok::<ServingIteration, ServingRuntimeError>(
                        ServingIteration { completed_batches, submitted },
                    ),
                    Err(error) => r == Err::<ServingIteration, ServingRuntimeError>(error),
                },
        }
}

proof fn lemma_work_awaits(view: ServingView, work: ScheduledWork)
    requires
        view.wf(),
        view.scheduler.work_defect(work) is None,
    ensures
        view.scheduler.slots.resolves(work.slot),
        work.token_count > 0,
        work.phase is Prefill || work.phase is Decode,
        work.phase is Decode ==> work.token_count == 1,
        awaits(view.scheduler.slots.slot(work.slot), view.segment_for(work)),
        belongs(view.scheduler.slots, work.slot, QueueKind::Runnable),
        view.scheduler.slots.slot(work.slot).id == work.slot,
{
    assert(view.scheduler.queues.of(QueueKind::Runnable).contains(work.slot));
    lemma_member(view.scheduler, QueueKind::Runnable, work.slot);
}

/// Taking the state of submittable work out of its slots.
proof fn lemma_lent(view: SchedulerView, work: Seq<ScheduledWork>)
    requires
        view.wf(),
        view.first_work_defect(work, 0) is None,
    ensures
        ({
            let ids = work_slots(work);
            &&& movable(view.slots, ids, view.lent(ids))
            &&& forall|i: int|
                0 <= i < ids.len() ==> belongs(view.slots, #[trigger] ids[i], QueueKind::Runnable)
            &&& forall|k: int| 0 <= k < work.len() ==> !#[trigger] repeats_slot(work, k)
        }),
{
    let ids = work_slots(work);
    let targets = view.lent(ids);
    lemma_no_work_defect(view, work, 0);
    assert forall|k: int| 0 <= k < work.len() implies !#[trigger] repeats_slot(work, k) by {
        assert(view.work_defect(work[k]) is None);
    }
    lemma_distinct_slots(work);
    assert forall|i: int|
        #![trigger ids[i]]
        #![trigger targets[i]]
        0 <= i < ids.len() implies {
        &&& belongs(view.slots, ids[i], QueueKind::Runnable)
        &&& targets[i].id == ids[i]
        &&& targets[i].request == view.slots.slot(ids[i]).request
        &&& fits(targets[i])
    } by {
        assert(view.work_defect(work[i]) is None);
        assert(view.queues.of(QueueKind::Runnable).contains(ids[i]));
        lemma_member(view, QueueKind::Runnable, ids[i]);
    }
}

/// What was prepared is all prepared, and unchanged but for its state.
proof fn lemma_prepared(view: ServingView, work: Seq<ScheduledWork>)
    requires
        view.wf(),
        view.scheduler.first_work_defect(work, 0) is None,
    ensures
        view.prepared(work).wf(),
        view.accounted() ==> view.prepared(work).accounted(),
        view.prepared(work).scheduler.all_prepared(work),
        forall|i: int|
            0 <= i < work.len() ==> view.prepared(work).scheduler.slots.slot(
                (#[trigger] work[i]).slot,
            ) == view.scheduler.slots.slot(work[i].slot).lent(RequestLifecycle::Submitting),
{
    let ids = work_slots(work);
    let before = view.scheduler;
    let targets = before.lent(ids);
    lemma_lent(before, work);
    lemma_settled_after_moves(before, ids, targets);
    lemma_moved_all(before.slots, before.queues, ids, targets, ids.len());
    let after = before.moved_all(ids, targets);
    assert forall|i: int|
        #![trigger ids[i]]
        #![trigger targets[i]]
        0 <= i < ids.len() implies !(kind_of(targets[i].lifecycle) is InFlight) && !(kind_of(
        before.slots.slot(ids[i]).lifecycle,
    ) is InFlight) by {
        assert(belongs(before.slots, ids[i], QueueKind::Runnable));
    }
    lemma_links_moved_all(before, ids, targets, view.submissions, view.plan.policy_version);
    lemma_no_work_defect(before, work, 0);
    assert forall|i: int| 0 <= i < work.len() implies after.queues.prepared.contains(
        (#[trigger] work[i]).slot,
    ) && after.slots.slot(work[i].slot).request.id == work[i].request && after.slots.slot(
        work[i].slot,
    ) == before.slots.slot(work[i].slot).lent(RequestLifecycle::Submitting) by {
        assert(ids[i] == work[i].slot);
        assert(belongs(before.slots, ids[i], QueueKind::Runnable));
        assert(after.slots.slot(ids[i]) == targets[i]);
        assert(after.slots.resolves(ids[i]));
        assert(before.work_defect(work[i]) is None);
    }
}

/// The requests of prepared work may move on.
proof fn lemma_prepared_movable(
    scheduler: SchedulerView,
    work: Seq<ScheduledWork>,
    targets: Seq<SlotView>,
)
    requires
        scheduler.wf(),
        scheduler.all_prepared(work),
        targets.len() == work.len(),
        forall|i: int|
            #![trigger targets[i]]
            0 <= i < work.len() ==> {
                let slot = scheduler.slots.slot(work[i].slot);
                &&& targets[i].id == slot.id
                &&& targets[i].request == slot.request
                &&& (kind_of(slot.lifecycle) is Prepared && fits(slot)) ==> fits(targets[i])
                &&& !(kind_of(targets[i].lifecycle) is Waiting)
            },
    ensures
        movable(scheduler.slots, work_slots(work), targets),
        forall|i: int|
            0 <= i < work.len() ==> kind_of(
                scheduler.slots.slot((#[trigger] work[i]).slot).lifecycle,
            ) is Prepared,
{
    let ids = work_slots(work);
    lemma_distinct_slots(work);
    assert forall|i: int|
        #![trigger ids[i]]
        #![trigger targets[i]]
        0 <= i < ids.len() implies {
        &&& scheduler.slots.resolves(ids[i])
        &&& targets[i].id == ids[i]
        &&& targets[i].request == scheduler.slots.slot(ids[i]).request
        &&& fits(targets[i])
        &&& kind_of(scheduler.slots.slot(ids[i]).lifecycle) is Prepared
        &&& !(kind_of(targets[i].lifecycle) is Waiting)
    } by {
        assert(scheduler.queues.prepared.contains(work[i].slot));
        assert(scheduler.queues.of(QueueKind::Prepared).contains(ids[i]));
        lemma_member(scheduler, QueueKind::Prepared, ids[i]);
    }
    assert forall|i: int| 0 <= i < work.len() implies kind_of(
        scheduler.slots.slot((#[trigger] work[i]).slot).lifecycle,
    ) is Prepared by {
        assert(ids[i] == work[i].slot);
    }
}

/// The requests of a live submission may move on.
proof fn lemma_owned_movable(
    scheduler: SchedulerView,
    submission: BackendSubmissionId,
    targets: Seq<SlotView>,
)
    requires
        scheduler.wf(),
        targets.len() == scheduler.owned(submission).len(),
        forall|i: int|
            #![trigger targets[i]]
            0 <= i < targets.len() ==> {
                let slot = scheduler.slots.slot(scheduler.owned(submission)[i]);
                &&& targets[i].id == slot.id
                &&& targets[i].request == slot.request
                &&& (kind_of(slot.lifecycle) is InFlight && fits(slot)) ==> fits(targets[i])
                &&& !(kind_of(targets[i].lifecycle) is Waiting)
            },
    ensures
        movable(scheduler.slots, scheduler.owned(submission), targets),
{
    let ids = scheduler.owned(submission);
    lemma_owned_members(scheduler, submission);
    assert forall|i: int|
        #![trigger ids[i]]
        #![trigger targets[i]]
        0 <= i < ids.len() implies {
        &&& scheduler.slots.resolves(ids[i])
        &&& targets[i].id == ids[i]
        &&& targets[i].request == scheduler.slots.slot(ids[i]).request
        &&& fits(targets[i])
        &&& active_kind(kind_of(scheduler.slots.slot(ids[i]).lifecycle))
        &&& !(kind_of(targets[i].lifecycle) is Waiting)
    } by {
        assert(belongs(scheduler.slots, scheduler.owned(submission)[i], QueueKind::InFlight));
    }
}

impl<P: ModelProvider, B: ComputeBackend, S: StateManager> ServingRuntime<P, B, S> {
    /// The execution runtime.
    pub closed spec fn spec_runtime(self) -> ExecutionRuntime<P, B, S> {
        self.runtime
    }

    /// Serve the requests of a scheduler. Requests that it already has in flight stay so:
    /// whoever submitted them owns their completion.
    ///
    /// # Errors
    /// Returns [`ServingRuntimeError::PolicyMismatch`] when the scheduler and prepared
    /// execution plan do not use the same policy snapshot version.
    pub fn new(
        scheduler: ServingScheduler,
        runtime: ExecutionRuntime<P, B, S>,
        plan: ExecutionPlan,
    ) -> (r: Result<Self, ServingRuntimeError>)
        requires
            scheduler@.wf(),
        ensures
            scheduler@.policy.version != plan@.policy_version ==> r == Err::<
                ServingRuntime<P, B, S>,
                ServingRuntimeError,
            >(ServingRuntimeError::PolicyMismatch),
            scheduler@.policy.version == plan@.policy_version ==> {
                &&& r is Ok
                &&& r->Ok_0@.wf()
                &&& scheduler@.queues.in_flight.len() == 0 ==> r->Ok_0@.accounted()
                &&& r->Ok_0.spec_runtime() == runtime
                &&& r->Ok_0@ == (ServingView {
                    scheduler: scheduler@,
                    plan: plan@,
                    submissions: Seq::empty(),
                    tokens: TokensView::empty(),
                })
            },
    {
        if scheduler.policy().version() != plan.policy_version() {
            return Err(ServingRuntimeError::PolicyMismatch);
        }
        let serving = ServingRuntime {
            scheduler,
            runtime,
            plan,
            submissions: Vec::new(),
            prompt_tokens: HashMap::new(),
            next_tokens: HashMap::new(),
            generated_tokens: Vec::new(),
        };
        assert(serving@.submissions =~= Seq::empty());
        assert(serving@.tokens =~= TokensView::empty());
        assert(serving@.scheduler.queues.in_flight.len() == 0 ==> serving@.accounted());
        Ok(serving)
    }

    #[must_use]
    pub fn scheduler(&self) -> (r: &ServingScheduler)
        ensures
            r@ == self@.scheduler,
    {
        &self.scheduler
    }

    #[must_use]
    pub fn runtime(&self) -> (r: &ExecutionRuntime<P, B, S>)
        ensures
            *r == self.spec_runtime(),
    {
        &self.runtime
    }

    #[must_use]
    pub fn runtime_mut(&mut self) -> (r: &mut ExecutionRuntime<P, B, S>)
        ensures
            *r == old(self).spec_runtime(),
            final(self).spec_runtime() == *final(r),
            final(self)@ == old(self)@,
    {
        &mut self.runtime
    }

    #[must_use]
    pub fn plan(&self) -> (r: &ExecutionPlan)
        ensures
            r@ == self@.plan,
    {
        &self.plan
    }

    #[must_use]
    pub fn submission_count(&self) -> (r: usize)
        ensures
            r == self@.submissions.len(),
    {
        self.submissions.len()
    }

    /// Number of committed generated-token events waiting for the frontend.
    #[must_use]
    pub fn generated_token_count(&self) -> (r: usize)
        ensures
            r == self@.tokens.generated.len(),
    {
        self.generated_tokens.len()
    }

    /// Pop the oldest committed generated token across all requests.
    ///
    /// The queue is independent of request-slot reclamation, so that a frontend cannot lose
    /// an already committed token by reclaiming terminal execution state before it drains
    /// output.
    pub fn pop_generated_token(&mut self) -> (r: Option<GeneratedToken>)
        ensures
            final(self).spec_runtime() == old(self).spec_runtime(),
            old(self)@.tokens.generated.len() == 0 ==> r is None && final(self)@ == old(self)@,
            old(self)@.tokens.generated.len() > 0 ==> r == Some(old(self)@.tokens.generated[0])
                && final(self)@ == (ServingView {
                tokens: TokensView {
                    generated: old(self)@.tokens.generated.remove(0),
                    ..old(self)@.tokens
                },
                ..old(self)@
            }),
    {
        if self.generated_tokens.len() == 0 {
            None
        } else {
            Some(self.generated_tokens.remove(0))
        }
    }

    /// Admit a request whose state was validated with the given outcome.
    ///
    /// # Errors
    /// Returns the outcome of a failed validation,
    /// [`ServingRuntimeError::InvalidPrompt`] unless the prompt is a representable token
    /// sequence, or the scheduler's refusal; the state is handed back.
    pub fn admit_validated(
        &mut self,
        request: RequestSpec,
        state: InferenceStateSet,
        prompt_tokens: Vec<u32>,
        validation: Result<(), StateError>,
    ) -> (r: Result<RequestSlotId, AdmissionError<ServingRuntimeError>>)
        requires
            old(self)@.wf(),
        ensures
            final(self)@.wf(),
            old(self)@.accounted() ==> final(self)@.accounted(),
            final(self).spec_runtime() == old(self).spec_runtime(),
            validation is Err ==> r is Err && r->Err_0.reason() == ServingRuntimeError::Runtime(
                RuntimeError::State(validation->Err_0),
            ) && r->Err_0.returned() == state@ && final(self)@ == old(self)@,
            validation is Ok && ServingView::prompt_refused(prompt_tokens@) ==> r is Err
                && r->Err_0.reason() == ServingRuntimeError::InvalidPrompt && r->Err_0.returned()
                == state@ && final(self)@ == old(self)@,
            validation is Ok && !ServingView::prompt_refused(prompt_tokens@) ==> match old(self)@.scheduler.admission_defect(request@.id) {
                Some(error) => {
                    &&& r is Err
                    &&& r->Err_0.reason() == ServingRuntimeError::Scheduler(error)
                    &&& r->Err_0.returned() == state@
                    &&& final(self)@ == old(self)@.with_scheduler(
                        old(self)@.scheduler.not_admitted(error),
                    )
                },
                None => r is Ok && r->Ok_0 == old(self)@.scheduler.slots.next_id() && final(self)@
                    == old(self)@.admitted(request@, state@, prompt_tokens@),
            },
    {
        let ghost before = self@;
        match validation {
            Ok(()) => {},
            Err(error) => {
                return Err(
                    AdmissionError::new(
                        ServingRuntimeError::Runtime(RuntimeError::State(error)),
                        state,
                    ),
                );
            },
        }
        if prompt_tokens.len() == 0 || prompt_tokens.len() as u64 > u32::MAX as u64 {
            return Err(AdmissionError::new(ServingRuntimeError::InvalidPrompt, state));
        }
        let request_id = request.id();
        let ghost spec = request@;
        let ghost handles = state@;
        let ghost prompt = prompt_tokens@;
        match self.scheduler.admit_request(request, state, prompt_tokens.len() as u32) {
            Ok(slot) => {
                self.prompt_tokens.insert(request_id.get(), prompt_tokens);
                proof {
                    lemma_links_admitted(
                        before.scheduler,
                        spec,
                        handles,
                        prompt.len() as u32,
                        before.submissions,
                        before.plan.policy_version,
                    );
                    assert(self@.tokens.prompts =~= before.tokens.prompts.insert(
                        spec.id@,
                        prompt,
                    ));
                    assert(self@ =~= before.admitted(spec, handles, prompt));
                }
                Ok(slot)
            },
            Err(refused) => {
                let (error, state) = refused.into_parts();
                proof {
                    lemma_same_table(before.scheduler, self@.scheduler);
                    lemma_links_kept(
                        before.scheduler,
                        self@.scheduler,
                        before.submissions,
                        before.plan.policy_version,
                    );
                }
                Err(AdmissionError::new(ServingRuntimeError::Scheduler(error), state))
            },
        }
    }

    /// Admit a request with its state and its prompt.
    ///
    /// # Errors
    /// As [`Self::admit_validated`], with the state manager's validation of the state.
    pub fn admit_request(
        &mut self,
        request: RequestSpec,
        state: InferenceStateSet,
        prompt_tokens: Vec<u32>,
    ) -> (r: Result<RequestSlotId, AdmissionError<ServingRuntimeError>>)
        requires
            old(self)@.wf(),
        ensures
            final(self)@.wf(),
            old(self)@.accounted() ==> final(self)@.accounted(),
            final(self).spec_runtime() == old(self).spec_runtime(),
            match old(self).spec_runtime().spec_state_manager().spec_validate(state@) {
                Err(error) => {
                    &&& r is Err
                    &&& r->Err_0.reason() == ServingRuntimeError::Runtime(
                        RuntimeError::State(error),
                    )
                    &&& r->Err_0.returned() == state@
                    &&& final(self)@ == old(self)@
                },
                Ok(()) => if ServingView::prompt_refused(prompt_tokens@) {
                    &&& r is Err
                    &&& r->Err_0.reason() == ServingRuntimeError::InvalidPrompt
                    &&& r->Err_0.returned() == state@
                    &&& final(self)@ == old(self)@
                } else {
                    match old(self)@.scheduler.admission_defect(request@.id) {
                        Some(error) => {
                            &&& r is Err
                            &&& r->Err_0.reason() == ServingRuntimeError::Scheduler(error)
                            &&& r->Err_0.returned() == state@
                            &&& final(self)@ == old(self)@.with_scheduler(
                                old(self)@.scheduler.not_admitted(error),
                            )
                        },
                        None => {
                            &&& r is Ok
                            &&& r->Ok_0 == old(self)@.scheduler.slots.next_id()
                            &&& final(self)@ == old(self)@.admitted(
                                request@,
                                state@,
                                prompt_tokens@,
                            )
                        },
                    }
                },
            },
    {
        let validation = self.runtime.state_manager().validate(&state);
        self.admit_validated(request, state, prompt_tokens, validation)
    }

    /// # Errors
    /// Returns a scheduler error for unknown or non-cancellable requests.
    pub fn cancel(&mut self, request: RequestId) -> (r: Result<(), ServingRuntimeError>)
        requires
            old(self)@.wf(),
        ensures
            final(self)@.wf(),
            old(self)@.accounted() ==> final(self)@.accounted(),
            final(self).spec_runtime() == old(self).spec_runtime(),
            match old(self)@.scheduler.cancellation_defect(request) {
                Some(error) => r == Err::<(), ServingRuntimeError>(
                    ServingRuntimeError::Scheduler(error),
                ) && final(self)@ == old(self)@,
                None => r is Ok && final(self)@ == old(self)@.with_scheduler(
                    old(self)@.scheduler.cancelled(request),
                ),
            },
    {
        let ghost before = self@;
        proof {
            lemma_cancel_links(before, request);
        }
        match self.scheduler.cancel(request) {
            Ok(()) => Ok(()),
            Err(error) => Err(ServingRuntimeError::Scheduler(error)),
        }
    }

    /// # Errors
    /// Returns a scheduler error unless the request is runnable.
    pub fn finish(&mut self, request: RequestId) -> (r: Result<(), ServingRuntimeError>)
        requires
            old(self)@.wf(),
        ensures
            final(self)@.wf(),
            old(self)@.accounted() ==> final(self)@.accounted(),
            final(self).spec_runtime() == old(self).spec_runtime(),
            match old(self)@.scheduler.finish_defect(request) {
                Some(error) => r == Err::<(), ServingRuntimeError>(
                    ServingRuntimeError::Scheduler(error),
                ) && final(self)@ == old(self)@,
                None => r is Ok && final(self)@ == old(self)@.with_scheduler(
                    old(self)@.scheduler.finished(request),
                ),
            },
    {
        let ghost before = self@;
        proof {
            if before.scheduler.finish_defect(request) is None {
                let id = before.scheduler.slot_for(request);
                assert(before.scheduler.queues.of(QueueKind::Runnable).contains(id));
                lemma_member(before.scheduler, QueueKind::Runnable, id);
                let target = before.scheduler.slots.slot(id).entered(RequestLifecycle::Completed);
                lemma_settled_after_move(before.scheduler, id, target);
                lemma_filled(before.scheduler.moved(id, target));
                lemma_links_moved(
                    before.scheduler,
                    id,
                    target,
                    before.submissions,
                    before.plan.policy_version,
                );
            }
        }
        match self.scheduler.finish(request) {
            Ok(()) => Ok(()),
            Err(error) => Err(ServingRuntimeError::Scheduler(error)),
        }
    }

    /// Release the state of the oldest ended request and take the request out of the
    /// runtime. Its generated tokens stay available.
    ///
    /// # Errors
    /// Release errors retain the ended request and its state for retry.
    pub fn reclaim_next(&mut self) -> (r: Result<Option<ActiveRequestSlot>, ServingRuntimeError>)
        requires
            old(self)@.wf(),
        ensures
            final(self)@.wf(),
            old(self)@.accounted() ==> final(self)@.accounted(),
            old(self)@.scheduler.queues.terminal.len() == 0 ==> r == Ok::<
                Option<ActiveRequestSlot>,
                ServingRuntimeError,
            >(None) && final(self)@ == old(self)@ && final(self).spec_runtime() == old(
                self,
            ).spec_runtime(),
            old(self)@.scheduler.queues.terminal.len() > 0 ==> {
                let ended = old(self)@.scheduler.slots.slot(
                    old(self)@.scheduler.queues.terminal[0],
                );
                exists|outcome: Result<(), RuntimeError>| #[trigger]
                    released(
                        old(self).spec_runtime(),
                        ended.state->Some_0,
                        final(self).spec_runtime(),
                        outcome,
                    ) && match outcome {
                        Ok(()) => {
                            &&& r is Ok
                            &&& r->Ok_0 is Some
                            &&& r->Ok_0->Some_0@ == ended.lent(ended.lifecycle)
                            &&& final(self)@ == (ServingView {
                                scheduler: old(self)@.scheduler.reclaimed(),
                                tokens: old(self)@.tokens.without(ended.request.id@),
                                ..old(self)@
                            })
                        },
                        Err(error) => {
                            &&& r == Err::<Option<ActiveRequestSlot>, ServingRuntimeError>(
                                ServingRuntimeError::Runtime(error),
                            )
                            &&& final(self)@ == old(self)@
                        },
                    }
            },
            old(self)@.scheduler.queues.terminal.len() > 0 ==> exists|
                backend: &mut B,
                state: &InferenceStateSet,
                answer: Result<(), BackendError>,
            | #[trigger]
                call_ensures(B::release_inference_state, (backend, state), answer) && Some(state@)
                    == old(self)@.scheduler.slots.slot(
                    old(self)@.scheduler.queues.terminal[0],
                ).state && *backend == old(self).spec_runtime().spec_backend() && *final(backend)
                    == final(self).spec_runtime().spec_backend() && backend_refuses(answer, r),
    {
        let ghost before = self@;
        let ghost ended = before.scheduler.slots.slot(before.scheduler.queues.terminal[0]);
        let outcome = match self.scheduler.terminal_state() {
            None => {
                return Ok(None);
            },
            Some(state) => {
                let outcome = self.runtime.release_state_set(state);
                assert(exists|backend: &mut B, given: &InferenceStateSet, answer: Result<
                    (),
                    BackendError,
                >| #[trigger]
                    call_ensures(B::release_inference_state, (backend, given), answer) && Some(
                        given@,
                    ) == ended.state && *backend == old(self).spec_runtime().spec_backend()
                        && *final(backend) == self.spec_runtime().spec_backend()
                        && released_after(
                        old(self).spec_runtime(),
                        given@,
                        answer,
                        self.spec_runtime(),
                        outcome,
                    ));
                outcome
            },
        };
        let ghost answer = outcome;
        assert(self@ == before);
        assert(released(
            old(self).spec_runtime(),
            ended.state->Some_0,
            self.spec_runtime(),
            answer,
        ));
        match outcome {
            Ok(()) => {},
            Err(error) => {
                return Err(ServingRuntimeError::Runtime(error));
            },
        }
        proof {
            lemma_links_reclaimed(
                before.scheduler,
                before.submissions,
                before.plan.policy_version,
            );
        }
        match self.scheduler.reclaim_next() {
            None => Ok(None),
            Some(slot) => {
                let mut slot = slot;
                let request = slot.request().id();
                let _ = slot.take_terminal_state();
                self.prompt_tokens.remove(&request.get());
                self.next_tokens.remove(&request.get());
                assert(self@.tokens =~= before.tokens.without(request@));
                assert(released(
                    old(self).spec_runtime(),
                    ended.state->Some_0,
                    self.spec_runtime(),
                    answer,
                ));
                Ok(Some(slot))
            },
        }
    }

    /// The batch of selected work.
    ///
    /// # Errors
    /// Returns an error for the first work whose input is missing, or whose prompt chunk
    /// reaches past the prompt.
    pub fn execution_batch(&self, work: &[ScheduledWork]) -> (r: Result<
        ExecutionBatch,
        ServingRuntimeError,
    >)
        requires
            self@.wf(),
            work@.len() > 0,
            self@.scheduler.first_work_defect(work@, 0) is None,
        ensures
            match self@.first_input_defect(work@, 0) {
                Some(error) => r == Err::<ExecutionBatch, ServingRuntimeError>(error),
                None => r is Ok && r->Ok_0@ == self@.segments_for(work@),
            },
            r is Ok ==> r->Ok_0@.len() == work@.len() && forall|i: int|
                0 <= i < work@.len() ==> {
                    let segment = #[trigger] r->Ok_0@[i];
                    &&& segment.request == work@[i].request
                    &&& segment.state_position == work@[i].state_position
                    &&& segment.token_count == work@[i].token_count
                    &&& work@[i].phase is Prefill ==> reads_prompt(
                        segment,
                        self@.tokens.prompts[work@[i].request@],
                    )
                    &&& work@[i].phase is Decode ==> segment.token_input == Some(
                        TokenInputView::Decode(self@.tokens.next[work@[i].request@]),
                    )
                },
    {
        let ghost view = self@;
        proof {
            lemma_no_work_defect(view.scheduler, work@, 0);
        }
        let mut segments: Vec<ExecutionSegment> = Vec::new();
        let mut index: usize = 0;
        while index < work.len()
            invariant
                index <= work@.len(),
                view == self@,
                view.wf(),
                forall|k: int|
                    0 <= k < work@.len() ==> view.scheduler.work_defect(#[trigger] work@[k]) is None
                        && !repeats_slot(work@, k),
                segments@.len() == index,
                forall|k: int|
                    0 <= k < index ==> (#[trigger] segments@[k])@ == view.segment_for(work@[k]),
                forall|k: int|
                    0 <= k < index && work@[k].phase is Prefill ==> reads_prompt(
                        (#[trigger] segments@[k])@,
                        view.tokens.prompts[work@[k].request@],
                    ),
                view.first_input_defect(work@, 0) == view.first_input_defect(work@, index as int),
            decreases work.len() - index,
        {
            let item = work[index];
            proof {
                assert(view.scheduler.work_defect(work@[index as int]) is None);
                lemma_work_awaits(view, item);
            }
            match self.segment(item) {
                Ok(segment) => segments.push(segment),
                Err(error) => {
                    return Err(error);
                },
            }
            index += 1;
        }
        proof {
            let built = segment_views(segments@);
            assert(built =~= view.segments_for(work@));
            assert forall|k: int|
                0 <= k < built.len() && work@[k].phase is Prefill implies reads_prompt(
                #[trigger] built[k],
                view.tokens.prompts[work@[k].request@],
            ) by {
                assert(built[k] == segments@[k]@);
            }
            assert forall|i: int, j: int| 0 <= i < j < built.len() implies (
            #[trigger] built[i]).request != (#[trigger] built[j]).request by {
                lemma_work_awaits(view, work@[i]);
                lemma_work_awaits(view, work@[j]);
                assert(!repeats_slot(work@, j)) by {
                    assert(view.scheduler.work_defect(work@[j]) is None);
                }
                lemma_slot_for(view.scheduler, work@[i].slot);
                lemma_slot_for(view.scheduler, work@[j].slot);
                assert(view.scheduler.work_defect(work@[i]) is None);
                assert(view.scheduler.work_defect(work@[j]) is None);
                assert(work@[i].slot != work@[j].slot);
            }
        }
        match ExecutionBatch::new(segments) {
            Ok(batch) => Ok(batch),
            Err(error) => Err(ServingRuntimeError::Plan(error)),
        }
    }

    fn segment(&self, item: ScheduledWork) -> (r: Result<ExecutionSegment, ServingRuntimeError>)
        requires
            item.token_count > 0,
            item.phase is Prefill || item.phase is Decode,
            item.phase is Decode ==> item.token_count == 1,
            self@.scheduler.slots.resolves(item.slot),
        ensures
            match self@.input_defect(item) {
                Some(error) => r == Err::<ExecutionSegment, ServingRuntimeError>(error),
                None => r is Ok && r->Ok_0@ == self@.segment_for(item),
            },
            r is Ok && item.phase is Prefill ==> reads_prompt(
                r->Ok_0@,
                self@.tokens.prompts[item.request@],
            ),
    {
        let segment = match ExecutionSegment::new_shared(
            item.request,
            item.phase,
            1,
            item.token_count,
            item.state_position,
            self.plan.shared_state_requirements(),
        ) {
            Ok(segment) => segment,
            Err(error) => {
                return Err(ServingRuntimeError::Plan(error));
            },
        };
        let input: ExecutionTokenInput = if item.phase == ExecutionPhase::Prefill {
            match self.prompt_tokens.get(&item.request.get()) {
                None => {
                    return Err(ServingRuntimeError::PromptMissing(item.request));
                },
                Some(prompt) => {
                    assert(self@.tokens.prompts[item.request@] == prompt@);
                    match ExecutionTokenInput::prompt(
                        prompt.as_slice(),
                        item.state_position,
                        item.token_count,
                    ) {
                        Ok(input) => input,
                        Err(error) => {
                            return Err(ServingRuntimeError::Plan(error));
                        },
                    }
                },
            }
        } else {
            match self.next_tokens.get(&item.request.get()) {
                None => {
                    return Err(ServingRuntimeError::DecodeTokenMissing(item.request));
                },
                Some(token) => ExecutionTokenInput::decode(*token),
            }
        };
        let segment = match segment.with_token_input(input) {
            Ok(segment) => segment,
            Err(error) => {
                return Err(ServingRuntimeError::Plan(error));
            },
        };
        if item.requests_output {
            match self.scheduler.slots().get(item.slot) {
                Some(slot) => Ok(segment.with_sampling(slot.request().semantics().sampling())),
                None => Err(ServingRuntimeError::Scheduler(SchedulerError::StaleWork)),
            }
        } else {
            Ok(segment)
        }
    }

    /// Put states back into the requests of prepared work, which have failed.
    fn put_back(&mut self, work: &[ScheduledWork], states: Vec<InferenceStateSet>) -> (r: Result<
        (),
        SchedulerError,
    >)
        requires
            old(self)@.wf(),
            old(self)@.scheduler.all_prepared(work@),
            states@.len() == work@.len(),
        ensures
            r is Ok,
            final(self)@.wf(),
            final(self)@ == old(self)@.refused(work@, held(states@)),
            old(self)@.accounted() ==> final(self)@.accounted(),
            final(self).spec_runtime() == old(self).spec_runtime(),
    {
        let ghost before = self@;
        let ghost ids = work_slots(work@);
        proof {
            let targets = before.scheduler.failed(ids, held(states@));
            lemma_prepared_movable(before.scheduler, work@, targets);
            lemma_settled_after_moves(before.scheduler, ids, targets);
            assert forall|i: int|
                #![trigger ids[i]]
                #![trigger targets[i]]
                0 <= i < ids.len() implies !(kind_of(targets[i].lifecycle) is InFlight) && !(
            kind_of(before.scheduler.slots.slot(ids[i]).lifecycle) is InFlight) by {
                assert(ids[i] == work@[i].slot);
            }
            lemma_links_moved_all(
                before.scheduler,
                ids,
                targets,
                before.submissions,
                before.plan.policy_version,
            );
            lemma_filled(before.scheduler.moved_all(ids, targets));
            lemma_links_filled(
                before.scheduler.moved_all(ids, targets),
                before.submissions,
                before.plan.policy_version,
            );
        }
        self.scheduler.fail_prepared(work, states)
    }

    /// End a submission that the backend took under an identity still in use, and put its
    /// states back.
    fn take_back(&mut self, work: &[ScheduledWork], submission: RuntimeSubmission)
        requires
            old(self)@.wf(),
            old(self)@.scheduler.all_prepared(work@),
            submission@.waits(),
            submission@.batch.len() == work@.len(),
        ensures
            final(self)@.wf(),
            final(self)@ == old(self)@.refused(work@, submission@.states->Some_0),
            old(self)@.accounted() ==> final(self)@.accounted(),
            final(self).spec_runtime() == old(self).spec_runtime(),
    {
        let mut submission = submission;
        match submission.take_uncommitted_states() {
            Ok(states) => {
                assert(states@.len() == held(states@).len());
                let _ = self.put_back(work, states);
            },
            Err(_) => {},
        }
    }

    /// Apply the outcome of submitting prepared work: a submission becomes live, and a
    /// refusal puts the states back and ends the requests.
    ///
    /// # Errors
    /// Returns the runtime's refusal, or [`ServingRuntimeError::SubmissionCollision`] when
    /// the backend used the identity of a live submission, or
    /// [`SchedulerError::DuplicateSubmission`] when it used one that was in flight before
    /// the runtime took over. The states are put back in each of these cases.
    pub fn settle_submission(
        &mut self,
        work: Vec<ScheduledWork>,
        outcome: Result<RuntimeSubmission, RuntimeStateError>,
    ) -> (r: Result<BackendSubmissionId, ServingRuntimeError>)
        requires
            old(self)@.wf(),
            work@.len() > 0,
            old(self)@.scheduler.all_prepared(work@),
            match outcome {
                Ok(submission) => old(self)@.fits_work(work@, submission@),
                Err(refused) => refused.returned().len() == work@.len(),
            },
        ensures
            final(self)@.wf(),
            old(self)@.accounted() ==> final(self)@.accounted(),
            final(self).spec_runtime() == old(self).spec_runtime(),
            settled(old(self)@, work@, outcome, final(self)@, r),
    {
        let ghost before = self@;
        let ghost ids = work_slots(work@);
        match outcome {
            Err(refused) => {
                let (error, states) = refused.into_parts();
                match self.put_back(work.as_slice(), states) {
                    Ok(()) => Err(ServingRuntimeError::Runtime(error)),
                    Err(error) => Err(ServingRuntimeError::Scheduler(error)),
                }
            },
            Ok(submission) => {
                let id = submission.backend_submission();
                if self.is_live(id) {
                    self.take_back(work.as_slice(), submission);
                    return Err(ServingRuntimeError::SubmissionCollision(id));
                }
                if self.scheduler.owns_any(id) {
                    self.take_back(work.as_slice(), submission);
                    return Err(
                        ServingRuntimeError::Scheduler(SchedulerError::DuplicateSubmission(id)),
                    );
                }
                let ghost carried = submission@;
                proof {
                    let targets = before.scheduler.flying(ids, id);
                    lemma_prepared_movable(before.scheduler, work@, targets);
                    assert forall|i: int| 0 <= i < ids.len() implies kind_of(
                        before.scheduler.slots.slot(#[trigger] ids[i]).lifecycle,
                    ) is Prepared && awaits(
                        before.scheduler.slots.slot(ids[i]),
                        carried.batch[i],
                    ) by {
                        assert(ids[i] == work@[i].slot);
                    }
                    lemma_links_confirmed(
                        before.scheduler,
                        ids,
                        before.submissions,
                        carried,
                        before.plan.policy_version,
                    );
                }
                match self.scheduler.confirm_submission(work, id) {
                    Ok(()) => {
                        self.submissions.push(submission);
                        proof {
                            assert(self@.submissions =~= before.submissions.push(carried));
                            assert forall|k: int| 0 <= k < self@.submissions.len() implies (
                            #[trigger] self@.submissions[k]).waits() by {
                                if k < before.submissions.len() {
                                    assert(self@.submissions[k] == before.submissions[k]);
                                }
                            }
                        }
                        Ok(id)
                    },
                    Err(error) => Err(ServingRuntimeError::Scheduler(error)),
                }
            },
        }
    }

    fn is_live(&self, id: BackendSubmissionId) -> (r: bool)
        ensures
            r == live(self@.submissions, id),
    {
        let mut index: usize = 0;
        while index < self.submissions.len()
            invariant
                index <= self@.submissions.len(),
                forall|k: int|
                    0 <= k < index ==> (#[trigger] self@.submissions[k]).backend_submission != id,
            decreases self.submissions.len() - index,
        {
            assert(self@.submissions[index as int] == self.submissions@[index as int]@);
            if self.submissions[index].backend_submission() == id {
                return true;
            }
            index += 1;
        }
        false
    }

    /// Schedule and submit one multi-request batch if runnable work exists. Submission
    /// failure restores state to the scheduler before returning.
    ///
    /// # Errors
    /// Returns a plan, scheduler or runtime submission error.
    pub fn submit_ready_batch(&mut self) -> (r: Result<
        Option<BackendSubmissionId>,
        ServingRuntimeError,
    >)
        requires
            old(self)@.wf(),
        ensures
            final(self)@.wf(),
            old(self)@.accounted() ==> final(self)@.accounted(),
            batch_submitted(
                old(self).spec_runtime(),
                old(self)@,
                final(self).spec_runtime(),
                final(self)@,
                r,
            ),
    {
        let ghost before = self@;
        let work = match self.scheduler.schedule() {
            Ok(work) => work,
            Err(error) => {
                return Err(ServingRuntimeError::Scheduler(error));
            },
        };
        if work.is_empty() {
            return Ok(None);
        }
        proof {
            law_selected_work_is_submittable(before.scheduler);
        }
        let batch = match self.execution_batch(work.as_slice()) {
            Ok(batch) => batch,
            Err(error) => {
                return Err(error);
            },
        };
        proof {
            lemma_prepared(before, work@);
            lemma_no_work_defect(before.scheduler, work@, 0);
        }
        let states = match self.scheduler.prepare_submission(work.as_slice()) {
            Ok(states) => states,
            Err(error) => {
                return Err(ServingRuntimeError::Scheduler(error));
            },
        };
        let ghost prepared = self@;
        assert(prepared =~= before.prepared(work@));
        assert(held(states@) =~= before.states_of(work@));
        let outcome = self.runtime.submit_batch(&self.plan, &batch, states);
        let ghost result = outcome;
        assert(self@ =~= prepared);
        assert(submitted(
            old(self).spec_runtime(),
            before.plan,
            before.segments_for(work@),
            before.states_of(work@),
            self.spec_runtime(),
            result,
        ));
        proof {
            if outcome is Ok {
                let carried = outcome->Ok_0@;
                assert forall|i: int| 0 <= i < work@.len() implies awaits(
                    prepared.scheduler.slots.slot((#[trigger] work@[i]).slot),
                    carried.batch[i],
                ) by {
                    assert(before.scheduler.work_defect(work@[i]) is None);
                    lemma_work_awaits(before, work@[i]);
                    assert(carried.batch[i] == before.segment_for(work@[i]));
                }
            }
        }
        let ghost selected = work@;
        let id = self.settle_submission(work, outcome);
        assert(settled(before.prepared(selected), selected, result, self@, id));
        match id {
            Ok(id) => Ok(Some(id)),
            Err(error) => Err(error),
        }
    }

    /// Apply what the poll of a live submission answered. A pending submission stays live; a
    /// completed one hands its states back to its requests and delivers their output; a
    /// failed one ends its requests, each with its state.
    ///
    /// # Errors
    /// Returns the runtime's error of a failed submission.
    pub fn apply_poll(
        &mut self,
        index: usize,
        outcome: Result<Option<CompletedExecutionBatch>, RuntimeError>,
    ) -> (r: Result<bool, ServingRuntimeError>)
        requires
            old(self)@.polled(index as int),
            answers(old(self)@.submissions[index as int], outcome),
        ensures
            final(self)@.wf(),
            old(self)@.accounted() ==> final(self)@.accounted(),
            final(self).spec_runtime() == old(self).spec_runtime(),
            match outcome {
                Ok(None) => {
                    r == Ok::<bool, ServingRuntimeError>(false) && final(self)@ == old(self)@
                },
                Ok(Some(completed)) => r == Ok::<bool, ServingRuntimeError>(true) && final(self)@
                    == old(self)@.completed(
                    index as int,
                    completed.events(),
                    completed.committed(),
                ),
                Err(error) => r == Err::<bool, ServingRuntimeError>(
                    ServingRuntimeError::Runtime(error),
                ) && final(self)@ == old(self)@.failed(index as int),
            },
    {
        let ghost before = self@;
        let ghost k = index as int;
        assert(before.submissions[k] == self.submissions@[k]@);
        let ghost carried = before.submissions[k];
        let ghost ids = before.scheduler.owned(carried.backend_submission);
        proof {
            assert(carries(before.scheduler, carried));
            lemma_owned_members(before.scheduler, carried.backend_submission);
        }
        match outcome {
            Ok(None) => {
                assert forall|j: int| 0 <= j < self@.submissions.len() implies (
                #[trigger] self@.submissions[j]).waits() by {}
                Ok(false)
            },
            Ok(Some(completed)) => {
                let ghost given = completed.events();
                let ghost returned = completed.committed();
                let id = self.submissions[index].backend_submission();
                let (event, states) = completed.into_parts();
                let mut states = states;
                let ghost targets = before.scheduler.completed(ids, given, returned);
                proof {
                    lemma_matching_events_apply(before.scheduler, carried, given, 0);
                    lemma_no_event_defect(before.scheduler, ids, given, 0);
                    assert forall|i: int|
                        #![trigger targets[i]]
                        0 <= i < targets.len() implies {
                        let slot = before.scheduler.slots.slot(ids[i]);
                        &&& targets[i].id == slot.id
                        &&& targets[i].request == slot.request
                        &&& fits(targets[i])
                        &&& !(kind_of(targets[i].lifecycle) is Waiting)
                        &&& targets[i].lifecycle.owner() is None
                    } by {
                        assert(belongs(
                            before.scheduler.slots,
                            before.scheduler.owned(carried.backend_submission)[i],
                            QueueKind::InFlight,
                        ));
                        lemma_completed_slot(
                            before.scheduler.slots.slot(ids[i]),
                            given[i],
                            returned[i],
                        );
                    }
                    lemma_owned_movable(before.scheduler, carried.backend_submission, targets);
                    lemma_settled_after_moves(before.scheduler, ids, targets);
                    lemma_filled(before.scheduler.moved_all(ids, targets));
                    lemma_links_released(
                        before.scheduler,
                        before.submissions,
                        k,
                        targets,
                        before.plan.policy_version,
                    );
                }
                let removed = self.submissions.remove(index);
                match self.scheduler.complete_submission(id, &event, &mut states) {
                    Ok(()) => {},
                    Err(error) => {
                        return Err(ServingRuntimeError::Scheduler(error));
                    },
                }
                proof {
                    assert(self@.submissions =~= before.submissions.remove(k));
                    lemma_completed_requests(before.scheduler, ids, targets, given);
                }
                self.deliver(&event);
                proof {
                    assert(self@ =~= before.completed(k, given, returned));
                    lemma_still_wait(before.submissions, k);
                }
                Ok(true)
            },
            Err(error) => {
                let mut removed = self.submissions.remove(index);
                let id = removed.backend_submission();
                let ghost targets = before.scheduler.failed(ids, carried.states->Some_0);
                proof {
                    assert forall|i: int|
                        #![trigger targets[i]]
                        0 <= i < targets.len() implies {
                        let slot = before.scheduler.slots.slot(ids[i]);
                        &&& targets[i].id == slot.id
                        &&& targets[i].request == slot.request
                        &&& fits(targets[i])
                        &&& !(kind_of(targets[i].lifecycle) is Waiting)
                        &&& targets[i].lifecycle.owner() is None
                    } by {
                        assert(belongs(
                            before.scheduler.slots,
                            before.scheduler.owned(carried.backend_submission)[i],
                            QueueKind::InFlight,
                        ));
                    }
                    lemma_owned_movable(before.scheduler, carried.backend_submission, targets);
                    lemma_settled_after_moves(before.scheduler, ids, targets);
                    lemma_filled(before.scheduler.moved_all(ids, targets));
                    lemma_links_released(
                        before.scheduler,
                        before.submissions,
                        k,
                        targets,
                        before.plan.policy_version,
                    );
                }
                match removed.take_uncommitted_states() {
                    Ok(states) => match self.scheduler.fail_submission(id, states) {
                        Ok(()) => {
                            proof {
                                assert(self@.submissions =~= before.submissions.remove(k));
                                assert(self@ =~= before.failed(k));
                                lemma_still_wait(before.submissions, k);
                            }
                            Err(ServingRuntimeError::Runtime(error))
                        },
                        Err(refused) => Err(ServingRuntimeError::Scheduler(refused)),
                    },
                    Err(consumed) => Err(ServingRuntimeError::Runtime(consumed)),
                }
            },
        }
    }

    /// Deliver the output of a completion that the scheduler has applied.
    fn deliver(&mut self, event: &ExecutionBatchEvent)
        requires
            old(self)@.scheduler.wf(),
            forall|i: int|
                0 <= i < event@.len() ==> old(self)@.scheduler.slots.has_request(
                    (#[trigger] event@[i]).request,
                ),
        ensures
            final(self).spec_runtime() == old(self).spec_runtime(),
            final(self)@ == (ServingView {
                tokens: old(self)@.tokens.after_events(
                    old(self)@.scheduler,
                    event@,
                    event@.len() as int,
                ),
                ..old(self)@
            }),
    {
        let ghost before = self@;
        let events = event.events();
        let mut index: usize = 0;
        while index < events.len()
            invariant
                index <= events@.len(),
                events@.len() == event@.len(),
                event_views(events@) == event@,
                before.scheduler.wf(),
                self.spec_runtime() == old(self).spec_runtime(),
                forall|i: int|
                    0 <= i < event@.len() ==> before.scheduler.slots.has_request(
                        (#[trigger] event@[i]).request,
                    ),
                self@ == (ServingView {
                    tokens: before.tokens.after_events(before.scheduler, event@, index as int),
                    ..before
                }),
            decreases events.len() - index,
        {
            let completed = events[index];
            assert(event@[index as int] == completed@);
            let request = completed.request();
            let ghost current = self@.tokens;
            if let Some(id) = self.scheduler.slot_for_request(request) {
                if let Some(slot) = self.scheduler.slots().get(id) {
                    let lifecycle = slot.lifecycle();
                    let progress = slot.progress();
                    if let Some(token) = completed.output_token() {
                        match lifecycle {
                            RequestLifecycle::Runnable => {
                                self.next_tokens.insert(request.get(), token);
                                self.generated_tokens.push(GeneratedToken::new(request, token));
                            },
                            RequestLifecycle::Completed => {
                                self.generated_tokens.push(GeneratedToken::new(request, token));
                            },
                            _ => {},
                        }
                    }
                    if completed.phase() == ExecutionPhase::Prefill && progress.prompt_processed
                        == progress.prompt_tokens {
                        self.prompt_tokens.remove(&request.get());
                    }
                    assert(self@.tokens =~= current.after_event(
                        before.scheduler.slots.slot(id),
                        completed@,
                    ));
                }
            }
            index += 1;
        }
    }

    /// Poll one live submission and apply what it answered.
    ///
    /// # Errors
    /// Returns the runtime's error of a failed submission.
    fn poll_next(&mut self, index: usize) -> (r: Result<bool, ServingRuntimeError>)
        requires
            old(self)@.wf(),
            index < old(self)@.submissions.len(),
        ensures
            final(self)@.wf(),
            old(self)@.accounted() ==> final(self)@.accounted(),
            final(self)@.plan == old(self)@.plan,
            old(self)@.tokens.generated.is_prefix_of(final(self)@.tokens.generated),
            exists|
                left: RuntimeSubmissionView,
                outcome: Result<Option<CompletedExecutionBatch>, RuntimeError>,
            | #[trigger]
                next_polled(
                    old(self).spec_runtime(),
                    old(self)@,
                    index as int,
                    left,
                    outcome,
                    final(self).spec_runtime(),
                    final(self)@,
                    r,
                ),
    {
        let ghost current = self@;
        let ghost place = index as int;
        assert(current.submissions[place] == self.submissions@[place]@);
        assert(current.submissions[place].waits());
        assert(carries(current.scheduler, current.submissions[place]));
        let outcome = self.runtime.poll_submission(&mut self.submissions[index]);
        let ghost left = self.submissions@[place]@;
        let ghost answer = outcome;
        let ghost asked = self@;
        proof {
            assert(asked.submissions[place] == left);
            assert(asked =~= current.asked(place, left));
            lemma_polled(current, asked, place);
        }
        let r = self.apply_poll(index, outcome);
        proof {
            assert(polled(
                old(self).spec_runtime(),
                current.submissions[place],
                self.spec_runtime(),
                left,
                answer,
            ));
            match answer {
                Ok(Some(batch)) => {
                    lemma_delivered_prefix(
                        asked.tokens,
                        self@.scheduler,
                        batch.events(),
                        batch.events().len() as int,
                    );
                    assert(asked.submissions.remove(place) =~= current.submissions.remove(place));
                    assert(self@ =~= current.completed(place, batch.events(), batch.committed()));
                },
                Ok(None) => {
                    assert(asked.submissions =~= current.submissions);
                },
                Err(_) => {},
            }
            assert(next_polled(
                old(self).spec_runtime(),
                current,
                place,
                left,
                answer,
                self.spec_runtime(),
                self@,
                r,
            ));
        }
        r
    }

    /// Poll every live backend submission once, in the order of submission. Completed state
    /// is restored to request slots before this reports how many submissions completed.
    ///
    /// # Errors
    /// Returns the runtime error of the first submission that failed; its requests have
    /// ended with their states, and later submissions have not been polled.
    #[verifier::spinoff_prover]
    pub fn poll_completions(&mut self) -> (r: Result<usize, ServingRuntimeError>)
        requires
            old(self)@.wf(),
        ensures
            final(self)@.wf(),
            old(self)@.accounted() ==> final(self)@.accounted(),
            final(self)@.plan == old(self)@.plan,
            old(self)@.tokens.generated.is_prefix_of(final(self)@.tokens.generated),
            completions_polled(
                old(self).spec_runtime(),
                old(self)@,
                final(self).spec_runtime(),
                final(self)@,
                r,
            ),
    {
        let ghost before = self@;
        let ghost mut trace: Seq<PollState<P, B, S>> = seq![
            PollState { runtime: self.spec_runtime(), view: self@, index: 0, completed: 0 },
        ];
        let total: usize = self.submissions.len();
        let mut completed: usize = 0;
        let mut index: usize = 0;
        while index < self.submissions.len()
            invariant
                index <= self@.submissions.len(),
                self@.wf(),
                before.accounted() ==> self@.accounted(),
                self@.plan == before.plan,
                before == old(self)@,
                before.tokens.generated.is_prefix_of(self@.tokens.generated),
                self@.submissions.len() + completed == total,
                poll_trace(old(self).spec_runtime(), before, trace),
                trace.last() == (PollState {
                    runtime: self.spec_runtime(),
                    view: self@,
                    index: index as int,
                    completed: completed as int,
                }),
            decreases self.submissions.len() - index,
        {
            let ghost runtime = self.spec_runtime();
            let ghost view = self@;
            let ghost place = index as int;
            let answer = self.poll_next(index);
            let ghost given = answer;
            let ghost (left, outcome) = choose|
                left: RuntimeSubmissionView,
                outcome: Result<Option<CompletedExecutionBatch>, RuntimeError>,
            | #[trigger]
                next_polled(
                    runtime,
                    view,
                    place,
                    left,
                    outcome,
                    self.spec_runtime(),
                    self@,
                    given,
                );
            assert(next_polled(
                trace.last().runtime,
                trace.last().view,
                trace.last().index,
                left,
                outcome,
                self.spec_runtime(),
                self@,
                given,
            ));
            match answer {
                Ok(true) => {
                    completed += 1;
                },
                Ok(false) => {
                    index += 1;
                },
                Err(error) => {
                    return Err(error);
                },
            }
            proof {
                let next = PollState {
                    runtime: self.spec_runtime(),
                    view: self@,
                    index: index as int,
                    completed: completed as int,
                };
                lemma_trace_grows(
                    old(self).spec_runtime(),
                    before,
                    trace,
                    next,
                    left,
                    outcome,
                    given->Ok_0,
                );
                trace = trace.push(next);
            }
        }
        Ok(completed)
    }

    /// Poll completions first, then submit the next ready batch.
    ///
    /// # Errors
    /// Returns any completion or submission error from the serving loop.
    pub fn drive_once(&mut self) -> (r: Result<ServingIteration, ServingRuntimeError>)
        requires
            old(self)@.wf(),
        ensures
            final(self)@.wf(),
            old(self)@.accounted() ==> final(self)@.accounted(),
            final(self)@.plan == old(self)@.plan,
            old(self)@.tokens.generated.is_prefix_of(final(self)@.tokens.generated),
            driven(
                old(self).spec_runtime(),
                old(self)@,
                final(self).spec_runtime(),
                final(self)@,
                r,
            ),
    {
        let first = self.poll_completions();
        let ghost polls = first;
        let ghost middle = self.spec_runtime();
        let ghost view = self@;
        assert(completions_polled(old(self).spec_runtime(), old(self)@, middle, view, polls));
        let completed_batches: usize = match first {
            Ok(completed) => completed,
            Err(error) => {
                return Err(error);
            },
        };
        let second = self.submit_ready_batch();
        assert(batch_submitted(middle, view, self.spec_runtime(), self@, second));
        match second {
            Ok(submitted) => Ok(ServingIteration { completed_batches, submitted }),
            Err(error) => Err(error),
        }
    }
}

/// A poll that did not fail continues a sequence of polls.
proof fn lemma_trace_grows<P: ModelProvider, B: ComputeBackend, S: StateManager>(
    runtime: ExecutionRuntime<P, B, S>,
    view: ServingView,
    trace: Seq<PollState<P, B, S>>,
    next: PollState<P, B, S>,
    left: RuntimeSubmissionView,
    outcome: Result<Option<CompletedExecutionBatch>, RuntimeError>,
    done: bool,
)
    requires
        poll_trace(runtime, view, trace),
        next_polled(
            trace.last().runtime,
            trace.last().view,
            trace.last().index,
            left,
            outcome,
            next.runtime,
            next.view,
            Ok(done),
        ),
        next.index == trace.last().index + (if done {
            0int
        } else {
            1
        }),
        next.completed == trace.last().completed + (if done {
            1int
        } else {
            0
        }),
    ensures
        poll_trace(runtime, view, trace.push(next)),
{
    let longer = trace.push(next);
    assert(poll_step(trace.last(), next));
    assert forall|i: int| 0 <= i < longer.len() - 1 implies poll_step(
        #[trigger] longer[i],
        longer[i + 1],
    ) by {
        if i < trace.len() - 1 {
            assert(poll_step(trace[i], trace[i + 1]));
        }
    }
}

proof fn lemma_same_table(before: SchedulerView, after: SchedulerView)
    requires
        after.slots.cells == before.slots.cells,
        after.queues == before.queues,
    ensures
        forall|t: BackendSubmissionId| #[trigger] after.owned(t) == before.owned(t),
        forall|id: RequestSlotId| #[trigger] after.slots.slot(id) == before.slots.slot(id),
{
    assert forall|t: BackendSubmissionId| #[trigger] after.owned(t) == before.owned(t) by {
        lemma_owned_same(
            before,
            after,
            t,
            before.queues.in_flight.len() as int,
        );
    }
}

proof fn lemma_cancel_links(view: ServingView, request: RequestId)
    requires
        view.wf(),
    ensures
        view.scheduler.cancellation_defect(request) is None ==> linked(
            view.scheduler.cancelled(request),
            view.submissions,
            view.plan.policy_version,
        ) && view.scheduler.cancelled(request).policy == view.scheduler.policy && (view.accounted()
            ==> owned_by_live(view.scheduler.cancelled(request), view.submissions)),
{
    let scheduler = view.scheduler;
    if scheduler.cancellation_defect(request) is None {
        let found = choose|i: int|
            0 <= i < scheduler.slots.cells.len() && (#[trigger] scheduler.slots.cells[i]).value is Some
                && scheduler.slots.cells[i].value->Some_0.request.id == request;
        lemma_slot_for(
            scheduler,
            RequestSlotId {
                index: found as u32,
                generation: scheduler.slots.cells[found].generation,
            },
        );
        let id = scheduler.slot_for(request);
        let slot = scheduler.slots.slot(id);
        assert(scheduler.slots.resolves(id));
        assert(scheduler.queues.of(kind_of(slot.lifecycle)).contains(id));
        lemma_member(scheduler, kind_of(slot.lifecycle), id);
        let target = match slot.lifecycle.owner() {
            Some(submission) => slot.entered(RequestLifecycle::Cancelling(submission)),
            None => slot.entered(RequestLifecycle::Cancelled),
        };
        lemma_settled_after_move(scheduler, id, target);
        lemma_filled(scheduler.moved(id, target));
        lemma_links_moved(
            scheduler,
            id,
            target,
            view.submissions,
            view.plan.policy_version,
        );
    }
}

/// After its completion was applied, every request of a submission is still resident.
proof fn lemma_completed_requests(
    scheduler: SchedulerView,
    ids: Seq<RequestSlotId>,
    targets: Seq<SlotView>,
    events: Seq<ExecutionEventView>,
)
    requires
        scheduler.wf(),
        movable(scheduler.slots, ids, targets),
        events.len() == ids.len(),
        forall|i: int|
            0 <= i < ids.len() ==> event_defect(
                scheduler.slots.slot(#[trigger] ids[i]),
                events[i],
            ) is None,
    ensures
        forall|i: int|
            0 <= i < events.len() ==> scheduler.moved_all(
                ids,
                targets,
            ).filled().slots.has_request((#[trigger] events[i]).request),
{
    let moved = scheduler.moved_all(ids, targets);
    let after = moved.filled();
    lemma_settled_after_moves(scheduler, ids, targets);
    lemma_moved_all(scheduler.slots, scheduler.queues, ids, targets, ids.len());
    lemma_filled_slots(moved);
    lemma_filled(moved);
    assert forall|i: int| 0 <= i < events.len() implies after.slots.has_request(
        (#[trigger] events[i]).request,
    ) by {
        assert(event_defect(scheduler.slots.slot(ids[i]), events[i]) is None);
        assert(moved.slots.slot(ids[i]) == targets[i]);
        assert(moved.slots.resolves(ids[i]));
        assert(after.slots.resolves(ids[i]));
        assert(after.slots.slot(ids[i]).request == moved.slots.slot(ids[i]).request);
        lemma_slot_for(after, ids[i]);
    }
}

proof fn lemma_still_wait(submissions: Seq<RuntimeSubmissionView>, k: int)
    requires
        0 <= k < submissions.len(),
        forall|j: int|
            0 <= j < submissions.len() && j != k ==> (#[trigger] submissions[j]).waits(),
    ensures
        forall|j: int|
            0 <= j < submissions.len() - 1 ==> (#[trigger] submissions.remove(k)[j]).waits(),
{
    let left = submissions.remove(k);
    assert forall|j: int| 0 <= j < left.len() implies (#[trigger] left[j]).waits() by {
        let at = if j < k {
            j
        } else {
            j + 1
        };
        assert(left[j] == submissions[at]);
    }
}

/// A poll changes nothing but the states of the submission that it asks for.
proof fn lemma_polled(before: ServingView, after: ServingView, k: int)
    requires
        before.wf(),
        0 <= k < before.submissions.len(),
        after.scheduler == before.scheduler,
        after.plan == before.plan,
        after.submissions.len() == before.submissions.len(),
        forall|j: int|
            0 <= j < before.submissions.len() && j != k ==> #[trigger] after.submissions[j]
                == before.submissions[j],
        after.submissions[k] == (RuntimeSubmissionView {
            states: after.submissions[k].states,
            ..before.submissions[k]
        }),
    ensures
        after.polled(k),
        before.accounted() ==> after.accounted(),
{
    assert forall|j: int| 0 <= j < after.submissions.len() implies carries(
        after.scheduler,
        #[trigger] after.submissions[j],
    ) && after.submissions[j].policy_version == after.plan.policy_version by {
        assert(carries(before.scheduler, before.submissions[j]));
        if j == k {
            let ids = before.scheduler.owned(before.submissions[k].backend_submission);
            assert(after.submissions[k].batch == before.submissions[k].batch);
        }
    }
    assert forall|i: int, j: int| 0 <= i < j < after.submissions.len() implies (
    #[trigger] after.submissions[i]).backend_submission != (
    #[trigger] after.submissions[j]).backend_submission by {
        assert(before.submissions[i].backend_submission != before.submissions[j].backend_submission);
    }
    if before.accounted() {
        assert forall|t: BackendSubmissionId| (#[trigger] after.scheduler.owned(t)).len()
            > 0 implies live(after.submissions, t) by {
            let m = choose|m: int|
                0 <= m < before.submissions.len() && (
                #[trigger] before.submissions[m]).backend_submission == t;
            assert(after.submissions[m].backend_submission == t);
        }
    }
}

proof fn lemma_delivered_prefix(
    tokens: TokensView,
    scheduler: SchedulerView,
    events: Seq<ExecutionEventView>,
    n: int,
)
    ensures
        tokens.generated.is_prefix_of(tokens.after_events(scheduler, events, n).generated),
    decreases n,
{
    if n > 0 {
        lemma_delivered_prefix(tokens, scheduler, events, n - 1);
    }
}

/// No state is lost in flight: where requests in flight are all owned by live submissions, a
/// request without a state of its own is being submitted, or a live submission owns it and
/// holds one state for each of its requests.
pub proof fn law_state_in_flight_has_an_owner(view: ServingView, id: RequestSlotId)
    requires
        view.wf(),
        view.accounted(),
        view.scheduler.slots.resolves(id),
        view.scheduler.slots.slot(id).state is None,
    ensures
        view.scheduler.slots.slot(id).lifecycle is Submitting || exists|k: int|
            0 <= k < view.submissions.len() && Some(
                (#[trigger] view.submissions[k]).backend_submission,
            ) == view.scheduler.slots.slot(id).lifecycle.owner() && view.submissions[k].waits()
                && view.scheduler.owned(view.submissions[k].backend_submission).contains(id),
{
    let slot = view.scheduler.slots.slot(id);
    assert(view.scheduler.queues.of(kind_of(slot.lifecycle)).contains(id));
    lemma_member(view.scheduler, kind_of(slot.lifecycle), id);
    if let Some(submission) = slot.lifecycle.owner() {
        lemma_owned_contains(view.scheduler, id, submission);
        let k = choose|k: int|
            0 <= k < view.submissions.len() && (
            #[trigger] view.submissions[k]).backend_submission == submission;
        assert(view.submissions[k].waits());
    }
}

/// The states that come back with a submission that did not become live: those that the
/// runtime handed back, or those of a submission whose identity was still in use.
pub open spec fn returned_states(
    outcome: Result<RuntimeSubmission, RuntimeStateError>,
) -> Seq<Seq<StateHandle>> {
    match outcome {
        Ok(submission) => submission@.states->Some_0,
        Err(refused) => refused.returned(),
    }
}

/// A failed submission restores state: whatever the reason, each of its requests has failed
/// and holds the state that came back for it, and no other request is affected but that
/// waiting ones may have become runnable.
pub proof fn law_failed_submissions_restore_state(
    before: ServingView,
    work: Seq<ScheduledWork>,
    outcome: Result<RuntimeSubmission, RuntimeStateError>,
    after: ServingView,
    r: Result<BackendSubmissionId, ServingRuntimeError>,
)
    requires
        before.wf(),
        before.scheduler.all_prepared(work),
        returned_states(outcome).len() == work.len(),
        settled(before, work, outcome, after, r),
        r is Err,
    ensures
        after == before.refused(work, returned_states(outcome)),
        forall|i: int|
            0 <= i < work.len() ==> after.scheduler.slots.resolves((#[trigger] work[i]).slot)
                && after.scheduler.slots.slot(work[i].slot) == before.scheduler.slots.slot(
                work[i].slot,
            ).restored(RequestLifecycle::Failed, returned_states(outcome)[i]),
        forall|id: RequestSlotId|
            before.scheduler.slots.resolves(id) && !work_slots(work).contains(id)
                ==> #[trigger] after.scheduler.slots.resolves(id) && after.scheduler.slots.slot(
                id,
            ).state == before.scheduler.slots.slot(id).state,
{
    let states = returned_states(outcome);
    let ids = work_slots(work);
    let targets = before.scheduler.failed(ids, states);
    let moved = before.scheduler.moved_all(ids, targets);
    lemma_prepared_movable(before.scheduler, work, targets);
    lemma_settled_after_moves(before.scheduler, ids, targets);
    lemma_moved_all(before.scheduler.slots, before.scheduler.queues, ids, targets, ids.len());
    assert(ids.take(ids.len() as int) =~= ids);
    assert forall|i: int| 0 <= i < work.len() implies after.scheduler.slots.resolves(
        (#[trigger] work[i]).slot,
    ) && after.scheduler.slots.slot(work[i].slot) == before.scheduler.slots.slot(
        work[i].slot,
    ).restored(RequestLifecycle::Failed, states[i]) by {
        assert(ids[i] == work[i].slot);
        assert(moved.slots.resolves(ids[i]));
        assert(moved.slots.slot(ids[i]) == targets[i]);
        lemma_filled_keeps(moved, ids[i]);
    }
    assert forall|id: RequestSlotId|
        before.scheduler.slots.resolves(id) && !ids.contains(
            id,
        ) implies #[trigger] after.scheduler.slots.resolves(id) && after.scheduler.slots.slot(
        id,
    ).state == before.scheduler.slots.slot(id).state by {
        assert(moved.slots.resolves(id));
        assert(moved.slots.slot(id) == before.scheduler.slots.slot(id));
        lemma_filled_keeps(moved, id);
    }
}

/// A completion that the runtime accepted is never refused by the scheduler: its requests
/// get their states back and their progress counted.
pub proof fn law_accepted_completions_apply(
    view: ServingView,
    k: int,
    events: Seq<ExecutionEventView>,
    states: Seq<Seq<StateHandle>>,
)
    requires
        view.wf(),
        0 <= k < view.submissions.len(),
        view.submissions[k].accepts(events),
        states.len() == view.submissions[k].batch.len(),
    ensures
        view.scheduler.completion_defect(
            view.submissions[k].backend_submission,
            events,
            states.len(),
        ) is None,
{
    assert(carries(view.scheduler, view.submissions[k]));
    lemma_matching_events_apply(view.scheduler, view.submissions[k], events, 0);
}

/// Polling loses no submission: each of them has completed or is still live.
pub proof fn law_polls_account_for_every_submission<
    P: ModelProvider,
    B: ComputeBackend,
    S: StateManager,
>(
    runtime: ExecutionRuntime<P, B, S>,
    before: ServingView,
    runtime_after: ExecutionRuntime<P, B, S>,
    after: ServingView,
    completed: usize,
)
    requires
        completions_polled(runtime, before, runtime_after, after, Ok(completed)),
    ensures
        after.submissions.len() + completed == before.submissions.len(),
        before.submissions.len() == 0 ==> after == before && runtime_after == runtime,
{
    let r = Ok::<usize, ServingRuntimeError>(completed);
    let trace = choose|trace: Seq<PollState<P, B, S>>| #[trigger]
        poll_trace(runtime, before, trace) && match r {
            Ok(completed) => {
                let last = trace.last();
                &&& last.index == last.view.submissions.len()
                &&& completed == last.completed
                &&& after == last.view
                &&& runtime_after == last.runtime
            },
            Err(_) => false,
        };
    lemma_trace_counts(runtime, before, trace, trace.len() - 1);
    if before.submissions.len() == 0 && trace.len() > 1 {
        assert(poll_step(trace[0], trace[1]));
    }
}

proof fn lemma_trace_counts<P: ModelProvider, B: ComputeBackend, S: StateManager>(
    runtime: ExecutionRuntime<P, B, S>,
    before: ServingView,
    trace: Seq<PollState<P, B, S>>,
    i: int,
)
    requires
        poll_trace(runtime, before, trace),
        0 <= i < trace.len(),
    ensures
        trace[i].view.submissions.len() + trace[i].completed == before.submissions.len(),
    decreases i,
{
    if i > 0 {
        lemma_trace_counts(runtime, before, trace, i - 1);
        assert(poll_step(trace[i - 1], trace[i]));
    }
}

/// A request that was cancelled, or that failed, delivers no output.
pub proof fn law_cancelled_requests_deliver_nothing(
    tokens: TokensView,
    slot: SlotView,
    event: ExecutionEventView,
)
    requires
        slot.lifecycle is Cancelled || slot.lifecycle is Failed,
    ensures
        tokens.after_event(slot, event).generated == tokens.generated,
        tokens.after_event(slot, event).next == tokens.next,
{
}

/// The token that a step sampled is delivered to the frontend, and where the request goes
/// on it is what the next decode of that request reads.
pub proof fn law_sampled_tokens_are_decoded_next(
    view: ServingView,
    slot: SlotView,
    event: ExecutionEventView,
    token: u32,
    work: ScheduledWork,
)
    requires
        event.output_token == Some(token),
        slot.lifecycle is Runnable,
        work.request == event.request,
        work.phase is Decode,
    ensures
        ({
            let tokens = view.tokens.after_event(slot, event);
            let after = ServingView { tokens, ..view };
            &&& tokens.generated == view.tokens.generated.push(
                GeneratedToken { request: event.request, token },
            )
            &&& after.input_defect(work) is None
            &&& after.segment_for(work).token_input == Some(TokenInputView::Decode(token))
        }),
{
}

/// Reclaiming a request loses none of its output.
pub proof fn law_output_outlives_its_request(tokens: TokensView, request: u64)
    ensures
        tokens.without(request).generated == tokens.generated,
{
}

} // verus!
