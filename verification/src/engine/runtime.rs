//! Stateful execution orchestration shared by local and serving frontends.

use crate::engine::backend::{freed, BackendError, BackendSubmissionId, ComputeBackend};
use crate::engine::execution::{
    event_views, segment_views, ExecutionBatch, ExecutionBatchEvent, ExecutionEvent,
    ExecutionEventView, ExecutionPlan, ExecutionPlanView, ExecutionSegment, ExecutionSegmentView,
    PlanError,
};
use crate::engine::model::{vetted, ModelError, ModelProvider};
use crate::engine::policy::PolicyVersion;
use crate::engine::state::{InferenceStateSet, StateError, StateHandle};
use crate::engine::state_manager::{held, StateManager};
use vstd::prelude::*;

verus! {

/// A model provider, a backend and a state manager that execute together.
pub struct ExecutionRuntime<P, B, S> {
    provider: P,
    backend: B,
    state_manager: S,
}

/// A batch that a backend owns, with the logical state that waits for its completion.
#[derive(Debug)]
pub struct RuntimeSubmission {
    backend_submission: BackendSubmissionId,
    batch: ExecutionBatch,
    policy_version: PolicyVersion,
    states: Option<Vec<InferenceStateSet>>,
    next_positions: Vec<u32>,
}

/// What a submission holds.
#[verifier::ext_equal]
pub struct RuntimeSubmissionView {
    pub backend_submission: BackendSubmissionId,
    pub batch: Seq<ExecutionSegmentView>,
    pub policy_version: PolicyVersion,
    pub states: Option<Seq<Seq<StateHandle>>>,
    pub next_positions: Seq<u32>,
}

impl View for RuntimeSubmission {
    type V = RuntimeSubmissionView;

    closed spec fn view(&self) -> RuntimeSubmissionView {
        RuntimeSubmissionView {
            backend_submission: self.backend_submission,
            batch: self.batch@,
            policy_version: self.policy_version,
            states: match self.states {
                Some(states) => Some(held(states@)),
                None => None,
            },
            next_positions: self.next_positions@,
        }
    }
}

/// Whether one completed event is what a segment asked for.
pub open spec fn event_matches(
    segment: ExecutionSegmentView,
    event: ExecutionEventView,
    policy_version: PolicyVersion,
) -> bool {
    &&& segment.request == event.request
    &&& segment.phase == event.phase
    &&& segment.token_count == event.token_count
    &&& event.policy_version == policy_version
    &&& event.output_token is Some == segment.sampling is Some
}

/// Whether a completion is, event by event, what a batch asked for.
pub open spec fn completion_matches(
    batch: Seq<ExecutionSegmentView>,
    events: Seq<ExecutionEventView>,
    policy_version: PolicyVersion,
) -> bool {
    &&& events.len() == batch.len()
    &&& forall|i: int|
        0 <= i < batch.len() ==> event_matches(#[trigger] batch[i], events[i], policy_version)
}

/// Whether the position after some segment is not representable.
pub open spec fn overruns(batch: Seq<ExecutionSegmentView>) -> bool {
    exists|i: int|
        0 <= i < batch.len() && (#[trigger] batch[i]).state_position + batch[i].token_count
            > u32::MAX
}

/// The positions after the segments of a batch.
pub open spec fn positions_after(batch: Seq<ExecutionSegmentView>) -> Seq<u32> {
    Seq::new(
        batch.len(),
        |i: int| (batch[i].state_position + batch[i].token_count) as u32,
    )
}

impl RuntimeSubmissionView {
    /// Whether a completion belongs to the submission.
    pub open spec fn accepts(self, events: Seq<ExecutionEventView>) -> bool {
        completion_matches(self.batch, events, self.policy_version)
    }

    /// Whether the submission still waits with its states, one for each segment.
    pub open spec fn waits(self) -> bool {
        self.states is Some && self.states->Some_0.len() == self.batch.len()
    }
}

/// The positions after the segments of a batch, or `None` where one is not representable.
pub fn next_positions(batch: &ExecutionBatch) -> (r: Option<Vec<u32>>)
    ensures
        overruns(batch@) ==> r is None,
        !overruns(batch@) ==> r is Some && r->Some_0@ == positions_after(batch@),
{
    let segments = batch.segments();
    let mut positions: Vec<u32> = Vec::new();
    let mut index: usize = 0;
    while index < segments.len()
        invariant
            index <= segments@.len(),
            segment_views(segments@) == batch@,
            positions@.len() == index,
            forall|i: int|
                0 <= i < index ==> (#[trigger] batch@[i]).state_position + batch@[i].token_count
                    <= u32::MAX && positions@[i] == batch@[i].state_position + batch@[i].token_count,
        decreases segments.len() - index,
    {
        assert(batch@[index as int] == segments@[index as int]@);
        match segments[index].state_position().checked_add(segments[index].token_count()) {
            Some(position) => {
                positions.push(position);
            },
            None => {
                return None;
            },
        }
        index += 1;
    }
    assert(positions@ =~= positions_after(batch@));
    Some(positions)
}

/// Check that a completion is, event by event, what a batch asked for.
///
/// # Errors
/// Returns [`RuntimeError::CompletionMismatch`] when it is not.
pub fn validate_completion(
    batch: &ExecutionBatch,
    policy_version: PolicyVersion,
    event: &ExecutionBatchEvent,
) -> (r: Result<(), RuntimeError>)
    ensures
        completion_matches(batch@, event@, policy_version) ==> r is Ok,
        !completion_matches(batch@, event@, policy_version) ==> r == Err::<(), RuntimeError>(
            RuntimeError::CompletionMismatch,
        ),
{
    if event.len() != batch.len() {
        return Err(RuntimeError::CompletionMismatch);
    }
    let segments = batch.segments();
    let events = event.events();
    let mut index: usize = 0;
    while index < segments.len()
        invariant
            index <= segments@.len() == events@.len(),
            segment_views(segments@) == batch@,
            event_views(events@) == event@,
            forall|i: int|
                0 <= i < index ==> event_matches(#[trigger] batch@[i], event@[i], policy_version),
        decreases segments.len() - index,
    {
        assert(batch@[index as int] == segments@[index as int]@);
        assert(event@[index as int] == events@[index as int]@);
        let segment = &segments[index];
        let completed = events[index];
        if segment.request() != completed.request() || segment.phase() != completed.phase()
            || segment.token_count() != completed.token_count() || completed.policy_version()
            != policy_version || completed.output_token().is_some() != segment.requests_sampling() {
            assert(!event_matches(batch@[index as int], event@[index as int], policy_version));
            return Err(RuntimeError::CompletionMismatch);
        }
        index += 1;
    }
    Ok(())
}

impl RuntimeSubmission {
    #[must_use]
    pub fn backend_submission(&self) -> (r: BackendSubmissionId)
        ensures
            r == self@.backend_submission,
    {
        self.backend_submission
    }

    #[must_use]
    pub fn batch(&self) -> (r: &ExecutionBatch)
        ensures
            r@ == self@.batch,
    {
        &self.batch
    }

    #[must_use]
    pub fn policy_version(&self) -> (r: PolicyVersion)
        ensures
            r == self@.policy_version,
    {
        self.policy_version
    }

    /// Recover uncommitted logical state after a terminal submission failure.
    ///
    /// # Errors
    /// Returns [`RuntimeError::SubmissionConsumed`] after completion or an earlier recovery
    /// already consumed the state.
    pub fn take_uncommitted_states(&mut self) -> (r: Result<Vec<InferenceStateSet>, RuntimeError>)
        ensures
            final(self)@ == (RuntimeSubmissionView { states: None, ..old(self)@ }),
            match old(self)@.states {
                Some(states) => r is Ok && held(r->Ok_0@) == states,
                None => r == Err::<Vec<InferenceStateSet>, RuntimeError>(
                    RuntimeError::SubmissionConsumed,
                ),
            },
    {
        match self.states.take() {
            Some(states) => Ok(states),
            None => Err(RuntimeError::SubmissionConsumed),
        }
    }
}

/// A failed execution, with the states that it hands back.
#[derive(Debug)]
pub struct RuntimeStateError {
    error: RuntimeError,
    states: Vec<InferenceStateSet>,
}

impl RuntimeStateError {
    /// Why the execution failed.
    pub closed spec fn reason(self) -> RuntimeError {
        self.error
    }

    /// The states that are handed back.
    pub closed spec fn returned(self) -> Seq<Seq<StateHandle>> {
        held(self.states@)
    }

    #[must_use]
    pub fn new(error: RuntimeError, states: Vec<InferenceStateSet>) -> (r: Self)
        ensures
            r.reason() == error,
            r.returned() == held(states@),
    {
        RuntimeStateError { error, states }
    }

    #[must_use]
    pub fn error(&self) -> (r: &RuntimeError)
        ensures
            *r == self.reason(),
    {
        &self.error
    }

    #[must_use]
    pub fn states(&self) -> (r: &[InferenceStateSet])
        ensures
            held(r@) == self.returned(),
    {
        self.states.as_slice()
    }

    #[must_use]
    pub fn into_parts(self) -> (r: (RuntimeError, Vec<InferenceStateSet>))
        ensures
            r.0 == self.reason(),
            held(r.1@) == self.returned(),
    {
        (self.error, self.states)
    }
}

/// A completed batch and its committed states.
#[derive(Debug)]
pub struct CompletedExecutionBatch {
    event: ExecutionBatchEvent,
    states: Vec<InferenceStateSet>,
}

impl CompletedExecutionBatch {
    /// What was completed.
    pub closed spec fn events(self) -> Seq<ExecutionEventView> {
        self.event@
    }

    /// The committed states.
    pub closed spec fn committed(self) -> Seq<Seq<StateHandle>> {
        held(self.states@)
    }

    #[must_use]
    pub fn new(event: ExecutionBatchEvent, states: Vec<InferenceStateSet>) -> (r: Self)
        ensures
            r.events() == event@,
            r.committed() == held(states@),
    {
        CompletedExecutionBatch { event, states }
    }

    #[must_use]
    pub fn event(&self) -> (r: &ExecutionBatchEvent)
        ensures
            r@ == self.events(),
    {
        &self.event
    }

    #[must_use]
    pub fn states(&self) -> (r: &[InferenceStateSet])
        ensures
            held(r@) == self.committed(),
    {
        self.states.as_slice()
    }

    #[must_use]
    pub fn into_parts(self) -> (r: (ExecutionBatchEvent, Vec<InferenceStateSet>))
        ensures
            r.0@ == self.events(),
            held(r.1@) == self.committed(),
    {
        (self.event, self.states)
    }
}

/// A completed segment and its committed state.
#[derive(Debug)]
pub struct CompletedExecution {
    event: ExecutionEvent,
    state: InferenceStateSet,
}

impl CompletedExecution {
    /// What was completed.
    pub closed spec fn completed(self) -> ExecutionEventView {
        self.event@
    }

    /// The committed state.
    pub closed spec fn committed(self) -> Seq<StateHandle> {
        self.state@
    }

    #[must_use]
    pub fn event(&self) -> (r: ExecutionEvent)
        ensures
            r@ == self.completed(),
    {
        self.event
    }

    #[must_use]
    pub fn state(&self) -> (r: &InferenceStateSet)
        ensures
            r@ == self.committed(),
    {
        &self.state
    }

    #[must_use]
    pub fn into_parts(self) -> (r: (ExecutionEvent, InferenceStateSet))
        ensures
            r.0@ == self.completed(),
            r.1@ == self.committed(),
    {
        (self.event, self.state)
    }
}

/// The manager's objection to the first invalid set from `i` on, if there is one.
pub open spec fn first_invalid<S: StateManager>(
    manager: S,
    states: Seq<Seq<StateHandle>>,
    i: int,
) -> Option<StateError>
    decreases states.len() - i,
{
    if i < 0 || i >= states.len() {
        None
    } else {
        match manager.spec_validate(states[i]) {
            Err(error) => Some(error),
            Ok(()) => first_invalid(manager, states, i + 1),
        }
    }
}

/// Why a batch never reaches the backend, if it does not, once the provider has answered for
/// its plan.
pub open spec fn submission_defect<S: StateManager>(
    validation: Result<(), ModelError>,
    manager: S,
    batch: Seq<ExecutionSegmentView>,
    states: Seq<Seq<StateHandle>>,
) -> Option<RuntimeError> {
    match validation {
        Err(error) => Some(RuntimeError::Model(error)),
        Ok(()) => if batch.len() != states.len() {
            Some(RuntimeError::StateCountMismatch)
        } else {
            match first_invalid(manager, states, 0) {
                Some(error) => Some(RuntimeError::State(error)),
                None => if overruns(batch) {
                    Some(RuntimeError::PositionOverflow)
                } else {
                    None
                },
            }
        },
    }
}

/// What the backend's answer to a release makes of a runtime: only once it has given up its
/// physical state does the manager release the logical state.
pub open spec fn released_after<P: ModelProvider, B: ComputeBackend, S: StateManager>(
    before: ExecutionRuntime<P, B, S>,
    state: Seq<StateHandle>,
    answer: Result<(), BackendError>,
    after: ExecutionRuntime<P, B, S>,
    r: Result<(), RuntimeError>,
) -> bool {
    match answer {
        Ok(()) => match r {
            Ok(()) => before.spec_state_manager().releases(
                state,
                after.spec_state_manager(),
                Ok(()),
            ),
            Err(RuntimeError::State(error)) => before.spec_state_manager().releases(
                state,
                after.spec_state_manager(),
                Err(error),
            ),
            Err(_) => false,
        },
        Err(error) => {
            &&& r == Err::<(), RuntimeError>(RuntimeError::Backend(error))
            &&& after.spec_state_manager() == before.spec_state_manager()
        },
    }
}

/// What releasing a state set comes to: the backend is asked to give up its physical state,
/// and its answer decides.
pub open spec fn released<P: ModelProvider, B: ComputeBackend, S: StateManager>(
    before: ExecutionRuntime<P, B, S>,
    state: Seq<StateHandle>,
    after: ExecutionRuntime<P, B, S>,
    r: Result<(), RuntimeError>,
) -> bool {
    &&& after.spec_provider() == before.spec_provider()
    &&& exists|answer: Result<(), BackendError>|
        #[trigger] freed(before.spec_backend(), state, after.spec_backend(), answer)
            && released_after(before, state, answer, after, r)
}

/// What the provider's answer for a plan makes of a submission. A defective batch is handed
/// back with its states before the backend is asked; any other is handed to the backend as it
/// stands, and the backend decides whether it is owned or handed back.
pub open spec fn submitted_after<P: ModelProvider, B: ComputeBackend, S: StateManager>(
    before: ExecutionRuntime<P, B, S>,
    plan: ExecutionPlanView,
    batch: Seq<ExecutionSegmentView>,
    states: Seq<Seq<StateHandle>>,
    validation: Result<(), ModelError>,
    after: ExecutionRuntime<P, B, S>,
    r: Result<RuntimeSubmission, RuntimeStateError>,
) -> bool {
    match submission_defect(validation, before.spec_state_manager(), batch, states) {
        Some(error) => {
            &&& r is Err
            &&& r->Err_0.reason() == error
            &&& r->Err_0.returned() == states
            &&& after.spec_backend() == before.spec_backend()
        },
        None => match r {
            Ok(submission) => {
                &&& submission@.batch == batch
                &&& submission@.policy_version == plan.policy_version
                &&& submission@.next_positions == positions_after(batch)
                &&& submission@.waits()
                &&& before.spec_backend().submits(
                    plan,
                    batch,
                    states,
                    after.spec_backend(),
                    submission@.states->Some_0,
                    Ok(submission@.backend_submission),
                )
            },
            Err(refused) => {
                &&& refused.reason() is Backend
                &&& refused.returned().len() == states.len()
                &&& before.spec_backend().submits(
                    plan,
                    batch,
                    states,
                    after.spec_backend(),
                    refused.returned(),
                    Err(refused.reason()->Backend_0),
                )
            },
        },
    }
}

/// What submitting a batch comes to: the provider is asked for the plan, and its answer
/// decides whether the batch goes on.
pub open spec fn submitted<P: ModelProvider, B: ComputeBackend, S: StateManager>(
    before: ExecutionRuntime<P, B, S>,
    plan: ExecutionPlanView,
    batch: Seq<ExecutionSegmentView>,
    states: Seq<Seq<StateHandle>>,
    after: ExecutionRuntime<P, B, S>,
    r: Result<RuntimeSubmission, RuntimeStateError>,
) -> bool {
    &&& after.spec_provider() == before.spec_provider()
    &&& after.spec_state_manager() == before.spec_state_manager()
    &&& exists|validation: Result<(), ModelError>|
        #[trigger] vetted(before.spec_provider(), plan, validation)
            && submitted_after(before, plan, batch, states, validation, after, r)
}

/// What a completion does to a submission and to the state manager. Only a completion of
/// exactly the submitted work is committed, and whatever fails, the submission keeps its
/// states.
pub open spec fn applied<S: StateManager>(
    manager: S,
    submission: RuntimeSubmissionView,
    events: Seq<ExecutionEventView>,
    manager_after: S,
    after: RuntimeSubmissionView,
    r: Result<CompletedExecutionBatch, RuntimeError>,
) -> bool {
    if !submission.accepts(events) {
        &&& r == Err::<CompletedExecutionBatch, RuntimeError>(RuntimeError::CompletionMismatch)
        &&& after == submission
        &&& manager_after == manager
    } else {
        match submission.states {
            None => {
                &&& r == Err::<CompletedExecutionBatch, RuntimeError>(
                    RuntimeError::SubmissionConsumed,
                )
                &&& after == submission
                &&& manager_after == manager
            },
            Some(states) => match r {
                Ok(completed) => {
                    &&& completed.events() == events
                    &&& completed.committed().len() == states.len()
                    &&& after == (RuntimeSubmissionView { states: None, ..submission })
                    &&& manager.commits(
                        states,
                        submission.next_positions,
                        manager_after,
                        completed.committed(),
                        Ok(()),
                    )
                },
                Err(error) => {
                    &&& error is State
                    &&& after.states is Some
                    &&& after.states->Some_0.len() == states.len()
                    &&& after == (RuntimeSubmissionView { states: after.states, ..submission })
                    &&& manager.commits(
                        states,
                        submission.next_positions,
                        manager_after,
                        after.states->Some_0,
                        Err(error->State_0),
                    )
                },
            },
        }
    }
}

/// What the backend's answer to a poll does to a submission and to the state manager.
pub open spec fn answered<S: StateManager>(
    manager: S,
    submission: RuntimeSubmissionView,
    answer: Result<Option<ExecutionBatchEvent>, BackendError>,
    manager_after: S,
    after: RuntimeSubmissionView,
    r: Result<Option<CompletedExecutionBatch>, RuntimeError>,
) -> bool {
    match answer {
        Ok(Some(event)) => match r {
            Ok(Some(completed)) => applied(
                manager,
                submission,
                event@,
                manager_after,
                after,
                Ok(completed),
            ),
            Ok(None) => false,
            Err(error) => applied(manager, submission, event@, manager_after, after, Err(error)),
        },
        Ok(None) => {
            &&& r == Ok::<Option<CompletedExecutionBatch>, RuntimeError>(None)
            &&& after == submission
            &&& manager_after == manager
        },
        Err(error) => {
            &&& r == Err::<Option<CompletedExecutionBatch>, RuntimeError>(
                RuntimeError::Backend(error),
            )
            &&& after == submission
            &&& manager_after == manager
        },
    }
}

/// What polling a submission comes to: the backend is asked for it, and its answer decides.
pub open spec fn polled<P: ModelProvider, B: ComputeBackend, S: StateManager>(
    before: ExecutionRuntime<P, B, S>,
    submission: RuntimeSubmissionView,
    after: ExecutionRuntime<P, B, S>,
    left: RuntimeSubmissionView,
    r: Result<Option<CompletedExecutionBatch>, RuntimeError>,
) -> bool {
    &&& after.spec_provider() == before.spec_provider()
    &&& exists|answer: Result<Option<ExecutionBatchEvent>, BackendError>|
        {
            &&& #[trigger] before.spec_backend().polls(
                submission.backend_submission,
                after.spec_backend(),
                answer,
            )
            &&& answered(
                before.spec_state_manager(),
                submission,
                answer,
                after.spec_state_manager(),
                left,
                r,
            )
        }
}

/// The states that a submission still holds.
pub open spec fn kept(submission: RuntimeSubmissionView) -> Seq<Seq<StateHandle>> {
    match submission.states {
        Some(states) => states,
        None => Seq::empty(),
    }
}

/// Whether a wait ends as its last poll did.
pub open spec fn ends_as(
    last: Result<Option<CompletedExecutionBatch>, RuntimeError>,
    submission: RuntimeSubmissionView,
    r: Result<CompletedExecutionBatch, RuntimeStateError>,
) -> bool {
    match last {
        Ok(Some(completed)) => r == Ok::<CompletedExecutionBatch, RuntimeStateError>(completed),
        Ok(None) => {
            &&& r is Err
            &&& r->Err_0.reason() == RuntimeError::WaitExhausted
            &&& r->Err_0.returned() == kept(submission)
        },
        Err(error) => {
            &&& r is Err
            &&& r->Err_0.reason() == error
            &&& r->Err_0.returned() == kept(submission)
        },
    }
}

/// Whether polls of a submission led from one runtime to the last of a trace, each of them
/// answered "pending".
pub open spec fn still_pending<P: ModelProvider, B: ComputeBackend, S: StateManager>(
    before: ExecutionRuntime<P, B, S>,
    submission: RuntimeSubmissionView,
    trace: Seq<ExecutionRuntime<P, B, S>>,
) -> bool {
    &&& trace.len() > 0
    &&& trace[0] == before
    &&& forall|i: int|
        0 <= i < trace.len() - 1 ==> polled(
            #[trigger] trace[i],
            submission,
            trace[i + 1],
            submission,
            Ok(None),
        )
}

/// What waiting for a submission comes to: polls that leave it pending, and one more whose
/// answer is the result. Only as many pending answers as can be counted end the wait without
/// a completion.
pub open spec fn waited<P: ModelProvider, B: ComputeBackend, S: StateManager>(
    before: ExecutionRuntime<P, B, S>,
    submission: RuntimeSubmissionView,
    after: ExecutionRuntime<P, B, S>,
    r: Result<CompletedExecutionBatch, RuntimeStateError>,
) -> bool {
    exists|
        trace: Seq<ExecutionRuntime<P, B, S>>,
        left: RuntimeSubmissionView,
        last: Result<Option<CompletedExecutionBatch>, RuntimeError>,
    |
        {
            &&& #[trigger] still_pending(before, submission, trace)
            &&& #[trigger] polled(trace.last(), submission, after, left, last)
            &&& ends_as(last, left, r)
            &&& last == Ok::<Option<CompletedExecutionBatch>, RuntimeError>(None) ==> trace.len()
                == u64::MAX
        }
}

/// What executing a batch comes to: its submission, and the wait for it where the backend
/// took it.
pub open spec fn executed<P: ModelProvider, B: ComputeBackend, S: StateManager>(
    before: ExecutionRuntime<P, B, S>,
    plan: ExecutionPlanView,
    batch: Seq<ExecutionSegmentView>,
    states: Seq<Seq<StateHandle>>,
    after: ExecutionRuntime<P, B, S>,
    r: Result<CompletedExecutionBatch, RuntimeStateError>,
) -> bool {
    exists|
        middle: ExecutionRuntime<P, B, S>,
        first: Result<RuntimeSubmission, RuntimeStateError>,
    | #[trigger]
        submitted(before, plan, batch, states, middle, first) && (match first {
            Ok(submission) => waited(middle, submission@, after, r),
            Err(refused) => after == middle && r == Err::<
                CompletedExecutionBatch,
                RuntimeStateError,
            >(refused),
        })
}

impl<P: ModelProvider, B: ComputeBackend, S: StateManager> ExecutionRuntime<P, B, S> {
    /// The provider.
    pub closed spec fn spec_provider(self) -> P {
        self.provider
    }

    /// The backend.
    pub closed spec fn spec_backend(self) -> B {
        self.backend
    }

    /// The state manager.
    pub closed spec fn spec_state_manager(self) -> S {
        self.state_manager
    }

    #[must_use]
    pub fn new(provider: P, backend: B, state_manager: S) -> (r: Self)
        ensures
            r.spec_provider() == provider,
            r.spec_backend() == backend,
            r.spec_state_manager() == state_manager,
    {
        ExecutionRuntime { provider, backend, state_manager }
    }

    #[must_use]
    pub fn provider(&self) -> (r: &P)
        ensures
            *r == self.spec_provider(),
    {
        &self.provider
    }

    #[must_use]
    pub fn backend(&self) -> (r: &B)
        ensures
            *r == self.spec_backend(),
    {
        &self.backend
    }

    #[must_use]
    pub fn backend_mut(&mut self) -> (r: &mut B)
        ensures
            *r == old(self).spec_backend(),
            final(self).spec_backend() == *final(r),
            final(self).spec_provider() == old(self).spec_provider(),
            final(self).spec_state_manager() == old(self).spec_state_manager(),
    {
        &mut self.backend
    }

    #[must_use]
    pub fn state_manager(&self) -> (r: &S)
        ensures
            *r == self.spec_state_manager(),
    {
        &self.state_manager
    }

    #[must_use]
    pub fn state_manager_mut(&mut self) -> (r: &mut S)
        ensures
            *r == old(self).spec_state_manager(),
            final(self).spec_state_manager() == *final(r),
            final(self).spec_provider() == old(self).spec_provider(),
            final(self).spec_backend() == old(self).spec_backend(),
    {
        &mut self.state_manager
    }

    /// Release backend-owned physical state, then release the logical state identities and
    /// capacity owned by one finished request.
    ///
    /// This order keeps the logical handles that a backend needs to find its physical
    /// allocations. If physical release fails, logical identity is retained rather than
    /// orphaning device memory.
    ///
    /// # Errors
    /// Returns [`RuntimeError::Backend`] when physical state release fails or
    /// [`RuntimeError::State`] when a logical state handle cannot be released.
    pub fn release_state_set(&mut self, state: &InferenceStateSet) -> (r: Result<(), RuntimeError>)
        ensures
            released(*old(self), state@, *final(self), r),
            exists|backend: &mut B, answer: Result<(), BackendError>| #[trigger]
                call_ensures(B::release_inference_state, (backend, state), answer) && *backend
                    == old(self).spec_backend() && *final(backend) == final(self).spec_backend()
                    && released_after(*old(self), state@, answer, *final(self), r),
    {
        let answer = self.backend.release_inference_state(state);
        let ghost given = answer;
        assert(given is Ok ==> given->Ok_0 == ());
        assert(freed(old(self).spec_backend(), state@, self.spec_backend(), given));
        match answer {
            Ok(()) => {},
            Err(error) => {
                return Err(RuntimeError::Backend(error));
            },
        }
        let released = self.state_manager.release_set(state);
        assert(released is Ok ==> released->Ok_0 == ());
        assert(freed(old(self).spec_backend(), state@, self.spec_backend(), Ok(())));
        match released {
            Ok(()) => Ok(()),
            Err(error) => Err(RuntimeError::State(error)),
        }
    }

    /// Submit a batch while preserving caller-owned logical state if model, plan,
    /// arithmetic or backend submission validation fails.
    ///
    /// # Errors
    /// Returns [`RuntimeStateError`] with the uncommitted states when the backend never takes
    /// submission ownership.
    pub fn submit_batch(
        &mut self,
        plan: &ExecutionPlan,
        batch: &ExecutionBatch,
        states: Vec<InferenceStateSet>,
    ) -> (r: Result<RuntimeSubmission, RuntimeStateError>)
        ensures
            submitted(*old(self), plan@, batch@, held(states@), *final(self), r),
    {
        let validation = self.provider.validate_plan(plan);
        let ghost answer = validation;
        assert(answer is Ok ==> answer->Ok_0 == ());
        assert(vetted(old(self).spec_provider(), plan@, answer));
        match validation {
            Ok(()) => {},
            Err(error) => {
                return Err(RuntimeStateError::new(RuntimeError::Model(error), states));
            },
        }
        if batch.len() != states.len() {
            return Err(RuntimeStateError::new(RuntimeError::StateCountMismatch, states));
        }
        let mut index: usize = 0;
        while index < states.len()
            invariant
                index <= states@.len(),
                batch@.len() == states@.len(),
                answer == Ok::<(), ModelError>(()),
                vetted(old(self).spec_provider(), plan@, answer),
                *self == *old(self),
                first_invalid(self.state_manager, held(states@), 0) == first_invalid(
                    self.state_manager,
                    held(states@),
                    index as int,
                ),
            decreases states.len() - index,
        {
            assert(held(states@)[index as int] == states@[index as int]@);
            match self.state_manager.validate(&states[index]) {
                Ok(()) => {},
                Err(error) => {
                    return Err(RuntimeStateError::new(RuntimeError::State(error), states));
                },
            }
            index += 1;
        }
        let positions = match next_positions(batch) {
            Some(positions) => positions,
            None => {
                return Err(RuntimeStateError::new(RuntimeError::PositionOverflow, states));
            },
        };
        let mut states = states;
        match self.backend.submit(plan, batch, states.as_mut_slice()) {
            Ok(backend_submission) => Ok(
                RuntimeSubmission {
                    backend_submission,
                    batch: batch.clone(),
                    policy_version: plan.policy_version(),
                    states: Some(states),
                    next_positions: positions,
                },
            ),
            Err(error) => Err(RuntimeStateError::new(RuntimeError::Backend(error), states)),
        }
    }

    /// Submit one segment.
    ///
    /// # Errors
    /// Returns [`RuntimeStateError`] from submission, preserving the supplied state.
    pub fn submit_segment(
        &mut self,
        plan: &ExecutionPlan,
        segment: &ExecutionSegment,
        state: InferenceStateSet,
    ) -> (r: Result<RuntimeSubmission, RuntimeStateError>)
        ensures
            submitted(*old(self), plan@, seq![segment@], seq![state@], *final(self), r),
    {
        let ghost given = state@;
        let mut states: Vec<InferenceStateSet> = Vec::new();
        states.push(state);
        assert(held(states@) =~= seq![given]);
        let mut segments: Vec<ExecutionSegment> = Vec::new();
        segments.push(segment.clone());
        assert(segment_views(segments@) =~= seq![segment@]);
        let batch = match ExecutionBatch::new(segments) {
            Ok(batch) => batch,
            Err(error) => {
                return Err(RuntimeStateError::new(RuntimeError::Plan(error), states));
            },
        };
        self.submit_batch(plan, &batch, states)
    }

    /// Apply a completion that a backend reported. Logical state positions are committed
    /// only after the completion was found to match the submitted work; whatever fails, the
    /// submission keeps its states.
    ///
    /// # Errors
    /// Returns [`RuntimeError::CompletionMismatch`], [`RuntimeError::SubmissionConsumed`] or
    /// the error of the state commitment.
    pub fn apply_completion(
        &mut self,
        submission: &mut RuntimeSubmission,
        event: ExecutionBatchEvent,
    ) -> (r: Result<CompletedExecutionBatch, RuntimeError>)
        ensures
            final(self).spec_provider() == old(self).spec_provider(),
            final(self).spec_backend() == old(self).spec_backend(),
            applied(
                old(self).spec_state_manager(),
                old(submission)@,
                event@,
                final(self).spec_state_manager(),
                final(submission)@,
                r,
            ),
    {
        match validate_completion(&submission.batch, submission.policy_version, &event) {
            Ok(()) => {},
            Err(error) => {
                return Err(error);
            },
        }
        match submission.states.take() {
            None => Err(RuntimeError::SubmissionConsumed),
            Some(states) => {
                let mut states = states;
                let committed = self.state_manager.commit_batch(
                    states.as_mut_slice(),
                    submission.next_positions.as_slice(),
                );
                assert(committed is Ok ==> committed->Ok_0 == ());
                match committed {
                    Ok(()) => Ok(CompletedExecutionBatch::new(event, states)),
                    Err(error) => {
                        submission.states = Some(states);
                        Err(RuntimeError::State(error))
                    },
                }
            },
        }
    }

    /// Poll a submitted batch. A backend polling error is terminal: the submission retains
    /// its states, so that the serving owner can recover them with
    /// [`RuntimeSubmission::take_uncommitted_states`].
    ///
    /// # Errors
    /// Returns [`RuntimeError`] when completion polling, identity validation or state
    /// commitment fails.
    pub fn poll_submission(&mut self, submission: &mut RuntimeSubmission) -> (r: Result<
        Option<CompletedExecutionBatch>,
        RuntimeError,
    >)
        ensures
            polled(*old(self), old(submission)@, *final(self), final(submission)@, r),
    {
        let answer = self.backend.poll(submission.backend_submission);
        let ghost given = answer;
        assert(old(self).spec_backend().polls(
            submission@.backend_submission,
            self.spec_backend(),
            given,
        ));
        match answer {
            Err(error) => Err(RuntimeError::Backend(error)),
            Ok(None) => Ok(None),
            Ok(Some(event)) => match self.apply_completion(submission, event) {
                Ok(completed) => Ok(Some(completed)),
                Err(error) => Err(error),
            },
        }
    }

    /// Poll a submission until it completes.
    ///
    /// # Errors
    /// Returns [`RuntimeStateError`] from completion or state commitment, with the
    /// uncommitted states, or [`RuntimeError::WaitExhausted`] when the submission is still
    /// pending after as many polls as can be counted.
    pub fn wait_submission(&mut self, submission: RuntimeSubmission) -> (r: Result<
        CompletedExecutionBatch,
        RuntimeStateError,
    >)
        ensures
            waited(*old(self), submission@, *final(self), r),
    {
        let ghost given = submission@;
        let ghost mut trace: Seq<Self> = seq![*self];
        let mut pending = submission;
        let mut polls: u64 = u64::MAX;
        loop
            invariant
                polls > 0,
                pending@ == given,
                given == submission@,
                still_pending(*old(self), given, trace),
                trace.last() == *self,
                trace.len() == u64::MAX - polls + 1,
            decreases polls,
        {
            let last = self.poll_submission(&mut pending);
            let ghost ended = last;
            let ghost left = pending@;
            assert(polled(trace.last(), given, *self, left, ended));
            polls -= 1;
            match last {
                Ok(Some(completed)) => {
                    let outcome = Ok(completed);
                    assert(ends_as(ended, left, outcome));
                    return outcome;
                },
                Ok(None) => {
                    if polls == 0 {
                        let states = recovered(&mut pending);
                        let outcome = Err(
                            RuntimeStateError::new(RuntimeError::WaitExhausted, states),
                        );
                        assert(ends_as(ended, left, outcome));
                        return outcome;
                    }
                    proof {
                        let longer = trace.push(*self);
                        assert forall|i: int| 0 <= i < longer.len() - 1 implies polled(
                            #[trigger] longer[i],
                            given,
                            longer[i + 1],
                            given,
                            Ok(None),
                        ) by {
                            if i < trace.len() - 1 {
                                assert(polled(trace[i], given, trace[i + 1], given, Ok(None)));
                            }
                        }
                        trace = longer;
                    }
                },
                Err(error) => {
                    let states = recovered(&mut pending);
                    let outcome = Err(RuntimeStateError::new(error, states));
                    assert(ends_as(ended, left, outcome));
                    return outcome;
                },
            }
        }
    }

    /// Execute a batch while retaining allocation ownership on every failure.
    ///
    /// # Errors
    /// Returns the runtime error and states for terminal cleanup.
    pub fn execute_batch(
        &mut self,
        plan: &ExecutionPlan,
        batch: &ExecutionBatch,
        states: Vec<InferenceStateSet>,
    ) -> (r: Result<CompletedExecutionBatch, RuntimeStateError>)
        ensures
            executed(*old(self), plan@, batch@, held(states@), *final(self), r),
    {
        let ghost given = held(states@);
        let first = self.submit_batch(plan, batch, states);
        let ghost outcome = first;
        let ghost middle = *self;
        assert(submitted(*old(self), plan@, batch@, given, middle, outcome));
        match first {
            Ok(submission) => self.wait_submission(submission),
            Err(error) => Err(error),
        }
    }

    /// Execute one segment while retaining allocation ownership on failure.
    ///
    /// # Errors
    /// Returns the runtime error and states for terminal cleanup.
    pub fn execute_segment(
        &mut self,
        plan: &ExecutionPlan,
        segment: &ExecutionSegment,
        state: InferenceStateSet,
    ) -> (r: Result<CompletedExecution, RuntimeStateError>)
        ensures
            exists|batch_result: Result<CompletedExecutionBatch, RuntimeStateError>| #[trigger]
                executed(
                    *old(self),
                    plan@,
                    seq![segment@],
                    seq![state@],
                    *final(self),
                    batch_result,
                ) && (match batch_result {
                    Ok(completed) => {
                        &&& r is Ok
                        &&& r->Ok_0.completed() == completed.events()[0]
                        &&& r->Ok_0.committed() == completed.committed()[0]
                    },
                    Err(failed) => r == Err::<CompletedExecution, RuntimeStateError>(failed),
                }),
            r is Ok ==> event_matches(segment@, r->Ok_0.completed(), plan@.policy_version),
    {
        let ghost given = state@;
        let first = self.submit_segment(plan, segment, state);
        let ghost outcome = first;
        let ghost middle = *self;
        assert(submitted(*old(self), plan@, seq![segment@], seq![given], middle, outcome));
        let submission = match first {
            Ok(submission) => submission,
            Err(error) => {
                assert(executed(
                    *old(self),
                    plan@,
                    seq![segment@],
                    seq![given],
                    *self,
                    Err(error),
                ));
                return Err(error);
            },
        };
        let second = self.wait_submission(submission);
        let ghost batch_result = second;
        assert(executed(
            *old(self),
            plan@,
            seq![segment@],
            seq![given],
            *self,
            batch_result,
        ));
        let completed = match second {
            Ok(completed) => completed,
            Err(error) => {
                return Err(error);
            },
        };
        assert(completion_matches(seq![segment@], completed.events(), plan@.policy_version));
        assert(completed.committed().len() == 1);
        let (batch_event, states) = completed.into_parts();
        let mut states = states;
        let event = batch_event.events()[0];
        assert(batch_event@[0] == event@);
        assert(event_matches(seq![segment@][0], event@, plan@.policy_version));
        assert(states@.len() == 1);
        assert(held(states@)[0] == states@[0]@);
        match states.pop() {
            Some(state) => Ok(CompletedExecution { event, state }),
            None => Err(RuntimeStateError::new(RuntimeError::CompletionMismatch, states)),
        }
    }
}

/// The states that a submission still holds.
fn recovered(submission: &mut RuntimeSubmission) -> (r: Vec<InferenceStateSet>)
    ensures
        held(r@) == kept(old(submission)@),
{
    match submission.take_uncommitted_states() {
        Ok(states) => states,
        Err(_) => Vec::new(),
    }
}

#[derive(Debug, PartialEq, Eq)]
pub enum RuntimeError {
    Model(ModelError),
    Backend(BackendError),
    State(StateError),
    Plan(PlanError),
    StateCountMismatch,
    PositionOverflow,
    SubmissionConsumed,
    CompletionMismatch,
    /// A submission outlasted every poll.
    WaitExhausted,
}

/// Only a completion of exactly the submitted work is accepted: the same requests in the
/// same order, in the same phases and sizes, with an output token where one was asked for
/// and nowhere else.
pub proof fn law_completions_match_their_submission(
    batch: Seq<ExecutionSegmentView>,
    events: Seq<ExecutionEventView>,
    policy_version: PolicyVersion,
    i: int,
)
    requires
        completion_matches(batch, events, policy_version),
        0 <= i < events.len(),
    ensures
        events.len() == batch.len(),
        events[i].request == batch[i].request,
        events[i].phase == batch[i].phase,
        events[i].token_count == batch[i].token_count,
        events[i].policy_version == policy_version,
        events[i].output_token is Some <==> batch[i].sampling is Some,
{
    assert(event_matches(batch[i], events[i], policy_version));
}

/// Physical state is released first: the logical state of a request changes hands only once
/// the backend has given up its physical state, and a backend that fails to leaves it alone.
pub proof fn law_physical_state_is_released_first<
    P: ModelProvider,
    B: ComputeBackend,
    S: StateManager,
>(
    before: ExecutionRuntime<P, B, S>,
    state: Seq<StateHandle>,
    after: ExecutionRuntime<P, B, S>,
    r: Result<(), RuntimeError>,
)
    requires
        released(before, state, after, r),
    ensures
        r is Ok || after.spec_state_manager() != before.spec_state_manager() ==> freed(
            before.spec_backend(),
            state,
            after.spec_backend(),
            Ok(()),
        ),
        r is Err && r->Err_0 is Backend ==> after.spec_state_manager()
            == before.spec_state_manager() && freed(
            before.spec_backend(),
            state,
            after.spec_backend(),
            Err(r->Err_0->Backend_0),
        ),
{
    let answer = choose|answer: Result<(), BackendError>|
        #[trigger] freed(before.spec_backend(), state, after.spec_backend(), answer)
            && released_after(before, state, answer, after, r);
    assert(answer is Ok ==> answer->Ok_0 == ());
}

} // verus!
