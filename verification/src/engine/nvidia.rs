//! NVIDIA backend adapter without a CUDA dependency.

use crate::engine::backend::{
    execution_defect, validate_execution, BackendCapabilities, BackendCapabilitiesView,
    BackendError, BackendKind, BackendSubmissionId, ComputeBackend,
};
use crate::engine::execution::{
    distinct_segments, event_views, segment_views, ExecutionBatch, ExecutionBatchEvent,
    ExecutionEvent, ExecutionEventView, ExecutionOutcome, ExecutionPlan, ExecutionPlanView,
    ExecutionSegment, ExecutionSegmentView,
};
use crate::engine::policy::PolicyVersion;
use crate::engine::state::{InferenceStateSet, StateHandle};
use crate::engine::state_manager::held;
use crate::engine::weights::{WeightBinding, WeightBindingView};
use crate::text::{decimal, number};
use std::collections::HashMap;
use vstd::prelude::*;

verus! {

broadcast use vstd::std_specs::hash::group_hash_axioms;

/// Whether the dispatchers of a chain answer, one after the other, the first segments of a
/// batch with these outcomes and states. The step relates a dispatcher, a segment's place,
/// the state left behind, the next dispatcher and the outcome.
pub open spec fn visits<D>(
    step: spec_fn(D, int, Seq<StateHandle>, D, Result<ExecutionOutcome, BackendError>) -> bool,
    after: Seq<Seq<StateHandle>>,
    chain: Seq<D>,
    outcomes: Seq<ExecutionOutcome>,
) -> bool {
    &&& chain.len() == outcomes.len() + 1
    &&& forall|i: int|
        0 <= i < outcomes.len() ==> step(
            #[trigger] chain[i],
            i,
            after[i],
            chain[i + 1],
            Ok(outcomes[i]),
        )
}

/// What dispatching the segments of a batch in order comes to: every segment is answered, or
/// the first failure ends the visit and leaves the later states alone.
pub open spec fn dispatched_in_order<D>(
    step: spec_fn(D, int, Seq<StateHandle>, D, Result<ExecutionOutcome, BackendError>) -> bool,
    dispatcher: D,
    before: Seq<Seq<StateHandle>>,
    last: D,
    after: Seq<Seq<StateHandle>>,
    r: Result<Vec<ExecutionOutcome>, BackendError>,
) -> bool {
    exists|chain: Seq<D>, outcomes: Seq<ExecutionOutcome>| #[trigger]
        visits(step, after, chain, outcomes) && chain[0] == dispatcher && (match r {
            Ok(answered) => answered@ == outcomes && outcomes.len() == before.len() && last
                == chain.last(),
            Err(error) => {
                let k = outcomes.len() as int;
                &&& k < before.len()
                &&& step(chain.last(), k, after[k], last, Err(error))
                &&& forall|i: int| k < i < before.len() ==> #[trigger] after[i] == before[i]
            },
        })
}

/// What dispatching a batch of `count` segments one by one comes to: a refusal that touches
/// nothing where there is not one state for each segment, and otherwise the visit in order.
pub open spec fn batch_dispatched<D>(
    step: spec_fn(D, int, Seq<StateHandle>, D, Result<ExecutionOutcome, BackendError>) -> bool,
    count: nat,
    dispatcher: D,
    before: Seq<Seq<StateHandle>>,
    last: D,
    after: Seq<Seq<StateHandle>>,
    r: Result<Vec<ExecutionOutcome>, BackendError>,
) -> bool {
    if count != before.len() {
        &&& r == Err::<Vec<ExecutionOutcome>, BackendError>(BackendError::StateCountMismatch)
        &&& last == dispatcher
        &&& after == before
    } else {
        dispatched_in_order(step, dispatcher, before, last, after, r)
    }
}

/// The outcomes of a batch that was executed within its submission, as a submission reports
/// them. Of a batch that is still owed there are none.
pub open spec fn executed_at_once(
    submitted: Result<Option<Vec<ExecutionOutcome>>, BackendError>,
) -> Option<Result<Vec<ExecutionOutcome>, BackendError>> {
    match submitted {
        Ok(Some(outcomes)) => Some(Ok(outcomes)),
        Ok(None) => None,
        Err(error) => Some(Err(error)),
    }
}

/// Executes batches on a device.
pub trait NvidiaDispatcher: Sized + Send {
    /// Whether [`Self::dispatch`] may answer the segment with this outcome, leaving behind
    /// this dispatcher and this state. A verified implementation says here what it does.
    open spec fn dispatches(
        &self,
        plan: ExecutionPlanView,
        segment: ExecutionSegmentView,
        weights: WeightBindingView,
        state: Seq<StateHandle>,
        after: Self,
        state_after: Seq<StateHandle>,
        outcome: Result<ExecutionOutcome, BackendError>,
    ) -> bool {
        arbitrary()
    }

    /// Whether [`Self::dispatch_batch`] may, other than one segment at a time, answer the batch
    /// with this result, leaving behind this dispatcher and these states. An implementation
    /// that consumes a whole batch in one operation says here what it does.
    open spec fn dispatches_batch(
        &self,
        plan: ExecutionPlanView,
        batch: Seq<ExecutionSegmentView>,
        weights: WeightBindingView,
        states: Seq<Seq<StateHandle>>,
        after: Self,
        states_after: Seq<Seq<StateHandle>>,
        outcomes: Result<Vec<ExecutionOutcome>, BackendError>,
    ) -> bool {
        false
    }

    /// Whether [`Self::submit_batch`] may, other than by executing at once, answer the batch
    /// with these outcomes, leaving behind this dispatcher and these states. An asynchronous
    /// dispatcher says here what it does.
    open spec fn submits_batch(
        &self,
        submission: BackendSubmissionId,
        plan: ExecutionPlanView,
        batch: Seq<ExecutionSegmentView>,
        weights: WeightBindingView,
        states: Seq<Seq<StateHandle>>,
        after: Self,
        states_after: Seq<Seq<StateHandle>>,
        outcomes: Result<Option<Vec<ExecutionOutcome>>, BackendError>,
    ) -> bool {
        false
    }

    /// Whether [`Self::poll_batch`] may, other than by owing nothing, answer with these outcomes
    /// and leave behind this dispatcher. An asynchronous dispatcher says here what it does.
    open spec fn polls_batch(
        &self,
        submission: BackendSubmissionId,
        after: Self,
        outcomes: Result<Option<Vec<ExecutionOutcome>>, BackendError>,
    ) -> bool {
        false
    }

    /// Whether [`Self::release_inference_state`] may, other than by doing nothing, answer with
    /// this result and leave behind this dispatcher. A dispatcher with physical state says here
    /// what it does.
    open spec fn frees(
        &self,
        state: Seq<StateHandle>,
        after: Self,
        result: Result<(), BackendError>,
    ) -> bool {
        false
    }

    /// Dispatch one request segment.
    ///
    /// This is the primitive for simple dispatchers. Others can override
    /// [`Self::dispatch_batch`] to consume a whole multi-request batch in one operation.
    ///
    /// # Errors
    /// Returns a backend error when dispatch or state mutation fails.
    fn dispatch(
        &mut self,
        plan: &ExecutionPlan,
        segment: &ExecutionSegment,
        weights: &WeightBinding,
        state: &mut InferenceStateSet,
    ) -> (r: Result<ExecutionOutcome, BackendError>)
        ensures
            old(self).dispatches(
                plan@,
                segment@,
                weights@,
                old(state)@,
                *final(self),
                final(state)@,
                r,
            ),
    ;

    /// Release dispatcher-owned physical state associated with one logical set of states.
    /// Unless it is overridden there is none, and nothing to do.
    ///
    /// # Errors
    /// Returns a backend error when the dispatcher cannot release the state.
    fn release_inference_state(&mut self, state: &InferenceStateSet) -> (r: Result<
        (),
        BackendError,
    >)
        ensures
            (r is Ok && *final(self) == *old(self)) || old(self).frees(state@, *final(self), r),
        default_ensures
            r is Ok,
            *final(self) == *old(self),
    {
        Ok(())
    }

    /// Dispatch one multi-request batch synchronously. Unless it is overridden, this visits
    /// the segments in order.
    ///
    /// # Errors
    /// Returns [`BackendError::StateCountMismatch`] when request and state counts differ, or
    /// propagates a segment dispatch failure. A synchronous implementation must not return
    /// while device work can still access the supplied state.
    fn dispatch_batch(
        &mut self,
        plan: &ExecutionPlan,
        batch: &ExecutionBatch,
        weights: &WeightBinding,
        states: &mut [InferenceStateSet],
    ) -> (r: Result<Vec<ExecutionOutcome>, BackendError>)
        ensures
            final(states)@.len() == old(states)@.len(),
            batch_dispatched(
                |d: Self, i: int, left: Seq<StateHandle>, next: Self, outcome|
                    d.dispatches(
                        plan@,
                        batch@[i],
                        weights@,
                        held(old(states)@)[i],
                        next,
                        left,
                        outcome,
                    ),
                batch@.len(),
                *old(self),
                held(old(states)@),
                *final(self),
                held(final(states)@),
                r,
            ) || old(self).dispatches_batch(
                plan@,
                batch@,
                weights@,
                held(old(states)@),
                *final(self),
                held(final(states)@),
                r,
            ),
        default_ensures
            batch@.len() != old(states)@.len() ==> {
                &&& r == Err::<Vec<ExecutionOutcome>, BackendError>(
                    BackendError::StateCountMismatch,
                )
                &&& *final(self) == *old(self)
                &&& final(states)@ == old(states)@
            },
            batch@.len() == old(states)@.len() ==> dispatched_in_order(
                |d: Self, i: int, left: Seq<StateHandle>, next: Self, outcome|
                    d.dispatches(
                        plan@,
                        batch@[i],
                        weights@,
                        held(old(states)@)[i],
                        next,
                        left,
                        outcome,
                    ),
                *old(self),
                held(old(states)@),
                *final(self),
                held(final(states)@),
                r,
            ),
    {
        if batch.len() != states.len() {
            return Err(BackendError::StateCountMismatch);
        }
        let segments = batch.segments();
        let ghost before = held(states@);
        let ghost mut chain: Seq<Self> = seq![*self];
        let ghost step = |d: Self, i: int, left: Seq<StateHandle>, next: Self, outcome|
            d.dispatches(plan@, batch@[i], weights@, before[i], next, left, outcome);
        let mut outcomes: Vec<ExecutionOutcome> = Vec::new();
        let mut index: usize = 0;
        while index < segments.len()
            invariant
                index <= segments@.len(),
                segments@.len() == states@.len(),
                segment_views(segments@) == batch@,
                states@.len() == old(states)@.len(),
                before == held(old(states)@),
                outcomes@.len() == index,
                chain.last() == *self,
                chain[0] == *old(self),
                step == (|d: Self, i: int, left: Seq<StateHandle>, next: Self, outcome|
                    d.dispatches(plan@, batch@[i], weights@, before[i], next, left, outcome)),
                visits(step, held(states@), chain, outcomes@),
                forall|i: int|
                    index <= i < states@.len() ==> #[trigger] states@[i] == old(states)@[i],
            decreases segments.len() - index,
        {
            let ghost earlier = held(states@);
            let ghost position = index as int;
            assert(batch@[position] == segments@[position]@);
            assert(before[position] == states@[position]@);
            let answer = self.dispatch(plan, &segments[index], weights, &mut states[index]);
            assert(held(states@)[position] == states@[position]@);
            assert forall|i: int| 0 <= i < states@.len() && i != position implies held(states@)[i]
                == earlier[i] by {}
            assert(step(chain.last(), position, held(states@)[position], *self, answer));
            match answer {
                Ok(outcome) => {
                    outcomes.push(outcome);
                    proof {
                        let longer = chain.push(*self);
                        assert forall|i: int| 0 <= i < outcomes@.len() implies step(
                            #[trigger] longer[i],
                            i,
                            held(states@)[i],
                            longer[i + 1],
                            Ok(outcomes@[i]),
                        ) by {
                            if i < position {
                                assert(longer[i] == chain[i]);
                                assert(longer[i + 1] == chain[i + 1]);
                            }
                        }
                        chain = longer;
                    }
                },
                Err(error) => {
                    proof {
                        assert(visits(step, held(states@), chain, outcomes@));
                    }
                    return Err(error);
                },
            }
            index += 1;
        }
        Ok(outcomes)
    }

    /// Submit one batch under the backend-owned submission identity.
    ///
    /// Unless it is overridden, this executes immediately and returns the outcomes. An
    /// asynchronous dispatcher returns `Ok(None)` after queueing device work and later exposes
    /// outcomes from [`Self::poll_batch`]. The submission identity is the same in both calls.
    ///
    /// # Errors
    /// Returns a backend error when the batch cannot be accepted; no queued work may then
    /// still access the supplied state.
    fn submit_batch(
        &mut self,
        submission: BackendSubmissionId,
        plan: &ExecutionPlan,
        batch: &ExecutionBatch,
        weights: &WeightBinding,
        states: &mut [InferenceStateSet],
    ) -> (r: Result<Option<Vec<ExecutionOutcome>>, BackendError>)
        ensures
            final(states)@.len() == old(states)@.len(),
            (executed_at_once(r) is Some && (batch_dispatched(
                |d: Self, i: int, left: Seq<StateHandle>, next: Self, outcome|
                    d.dispatches(
                        plan@,
                        batch@[i],
                        weights@,
                        held(old(states)@)[i],
                        next,
                        left,
                        outcome,
                    ),
                batch@.len(),
                *old(self),
                held(old(states)@),
                *final(self),
                held(final(states)@),
                executed_at_once(r)->Some_0,
            ) || old(self).dispatches_batch(
                plan@,
                batch@,
                weights@,
                held(old(states)@),
                *final(self),
                held(final(states)@),
                executed_at_once(r)->Some_0,
            ))) || old(self).submits_batch(
                submission,
                plan@,
                batch@,
                weights@,
                held(old(states)@),
                *final(self),
                held(final(states)@),
                r,
            ),
        default_ensures
            exists|
                dispatcher: &mut Self,
                given: &mut [InferenceStateSet],
                answer: Result<Vec<ExecutionOutcome>, BackendError>,
            | #[trigger]
                call_ensures(
                    Self::dispatch_batch,
                    (dispatcher, plan, batch, weights, given),
                    answer,
                ) && *dispatcher == *old(self) && *final(dispatcher) == *final(self) && given@
                    == old(states)@ && final(given)@ == final(states)@ && executed_at_once(r)
                    == Some(answer),
    {
        match self.dispatch_batch(plan, batch, weights, states) {
            Ok(outcomes) => Ok(Some(outcomes)),
            Err(error) => Err(error),
        }
    }

    /// Poll outcomes for a batch previously accepted asynchronously. Unless it is overridden
    /// nothing is owed: a synchronous dispatcher is never asked.
    ///
    /// # Errors
    /// Returns a backend error for terminal completion failure; the dispatcher must then have
    /// given up all access to request state.
    fn poll_batch(&mut self, submission: BackendSubmissionId) -> (r: Result<
        Option<Vec<ExecutionOutcome>>,
        BackendError,
    >)
        ensures
            (r == Err::<Option<Vec<ExecutionOutcome>>, BackendError>(
                BackendError::Unsupported("asynchronous NVIDIA dispatcher completion"),
            ) && *final(self) == *old(self)) || old(self).polls_batch(
                submission,
                *final(self),
                r,
            ),
        default_ensures
            r == Err::<Option<Vec<ExecutionOutcome>>, BackendError>(
                BackendError::Unsupported("asynchronous NVIDIA dispatcher completion"),
            ),
            *final(self) == *old(self),
    {
        Err(BackendError::Unsupported("asynchronous NVIDIA dispatcher completion"))
    }
}

/// Whether a dispatcher that is handed a batch may answer with these outcomes, leaving behind
/// this dispatcher and these states.
pub open spec fn batch_taken<D: NvidiaDispatcher>(
    dispatcher: D,
    submission: BackendSubmissionId,
    plan: ExecutionPlanView,
    batch: Seq<ExecutionSegmentView>,
    weights: WeightBindingView,
    states: Seq<Seq<StateHandle>>,
    after: D,
    states_after: Seq<Seq<StateHandle>>,
    outcomes: Result<Option<Vec<ExecutionOutcome>>, BackendError>,
) -> bool {
    (executed_at_once(outcomes) is Some && (batch_dispatched(
        |d: D, i: int, left: Seq<StateHandle>, next: D, outcome|
            d.dispatches(plan, batch[i], weights, states[i], next, left, outcome),
        batch.len(),
        dispatcher,
        states,
        after,
        states_after,
        executed_at_once(outcomes)->Some_0,
    ) || dispatcher.dispatches_batch(
        plan,
        batch,
        weights,
        states,
        after,
        states_after,
        executed_at_once(outcomes)->Some_0,
    ))) || dispatcher.submits_batch(
        submission,
        plan,
        batch,
        weights,
        states,
        after,
        states_after,
        outcomes,
    )
}

/// Whether a dispatcher that is asked for a batch may answer with these outcomes and leave
/// behind this dispatcher.
pub open spec fn batch_asked<D: NvidiaDispatcher>(
    dispatcher: D,
    submission: BackendSubmissionId,
    after: D,
    outcomes: Result<Option<Vec<ExecutionOutcome>>, BackendError>,
) -> bool {
    (outcomes == Err::<Option<Vec<ExecutionOutcome>>, BackendError>(
        BackendError::Unsupported("asynchronous NVIDIA dispatcher completion"),
    ) && after == dispatcher) || dispatcher.polls_batch(submission, after, outcomes)
}

/// A batch whose outcomes the dispatcher still owes.
#[derive(Debug)]
struct PendingNvidiaSubmission {
    batch: ExecutionBatch,
    policy_version: PolicyVersion,
}

/// What a pending submission holds.
#[verifier::ext_equal]
pub struct PendingView {
    pub batch: Seq<ExecutionSegmentView>,
    pub policy_version: PolicyVersion,
}

impl View for PendingNvidiaSubmission {
    type V = PendingView;

    closed spec fn view(&self) -> PendingView {
        PendingView { batch: self.batch@, policy_version: self.policy_version }
    }
}

/// A backend that validates work, hands it to a dispatcher and turns outcomes into
/// completions.
pub struct NvidiaBackend<D> {
    capabilities: BackendCapabilities,
    dispatcher: D,
    next_submission: u64,
    completed: HashMap<u64, ExecutionBatchEvent>,
    pending: HashMap<u64, PendingNvidiaSubmission>,
}

/// What a backend holds besides its dispatcher.
#[verifier::ext_equal]
pub struct NvidiaView {
    pub capabilities: BackendCapabilitiesView,
    pub next_submission: u64,
    pub completed: Map<u64, Seq<ExecutionEventView>>,
    pub pending: Map<u64, PendingView>,
}

impl<D> View for NvidiaBackend<D> {
    type V = NvidiaView;

    closed spec fn view(&self) -> NvidiaView {
        NvidiaView {
            capabilities: self.capabilities@,
            next_submission: self.next_submission,
            completed: self.completed@.map_values(|event: ExecutionBatchEvent| event@),
            pending: self.pending@.map_values(|pending: PendingNvidiaSubmission| pending@),
        }
    }
}

/// The completion of one segment by its outcome.
pub open spec fn outcome_event(
    segment: ExecutionSegmentView,
    policy_version: PolicyVersion,
    outcome: ExecutionOutcome,
) -> ExecutionEventView {
    ExecutionEventView {
        request: segment.request,
        policy_version,
        phase: segment.phase,
        token_count: segment.token_count,
        metrics: outcome.metrics,
        output_token: outcome.output_token,
    }
}

/// Whether an outcome has an output token exactly where the segment asked for one.
pub open spec fn output_fits(segment: ExecutionSegmentView, outcome: ExecutionOutcome) -> bool {
    segment.sampling is Some == outcome.output_token is Some
}

/// The request of the first segment from `i` on whose outcome does not fit.
pub open spec fn first_misfit(
    batch: Seq<ExecutionSegmentView>,
    outcomes: Seq<ExecutionOutcome>,
    i: int,
) -> Option<u64>
    decreases batch.len() - i,
{
    if i < 0 || i >= batch.len() {
        None
    } else if !output_fits(batch[i], outcomes[i]) {
        Some(batch[i].request@)
    } else {
        first_misfit(batch, outcomes, i + 1)
    }
}

/// The completions of a batch by its outcomes.
pub open spec fn outcome_events(
    batch: Seq<ExecutionSegmentView>,
    policy_version: PolicyVersion,
    outcomes: Seq<ExecutionOutcome>,
) -> Seq<ExecutionEventView> {
    Seq::new(batch.len(), |i: int| outcome_event(batch[i], policy_version, outcomes[i]))
}

/// Why outcomes do not complete a batch, if they do not.
pub open spec fn outcome_defect(
    batch: Seq<ExecutionSegmentView>,
    outcomes: Seq<ExecutionOutcome>,
) -> Option<Seq<char>> {
    if outcomes.len() != batch.len() {
        Some(
            "NVIDIA dispatcher returned "@ + decimal(outcomes.len()) + " outcomes for "@ + decimal(
                batch.len(),
            ) + " request segments"@,
        )
    } else {
        match first_misfit(batch, outcomes, 0) {
            Some(request) => Some(
                "NVIDIA dispatcher output-token presence did not match sampling for request "@
                    + decimal(request as nat),
            ),
            None => None,
        }
    }
}

/// Turn the outcomes of a batch into its completion.
///
/// # Errors
/// Returns [`BackendError::ExecutionFailed`] when there is not one outcome for each segment,
/// or when an output token is missing where it was asked for or present where it was not.
pub fn completion_event(
    batch: &ExecutionBatch,
    policy_version: PolicyVersion,
    outcomes: Vec<ExecutionOutcome>,
) -> (r: Result<ExecutionBatchEvent, BackendError>)
    ensures
        match outcome_defect(batch@, outcomes@) {
            Some(reason) => r is Err && r->Err_0 is ExecutionFailed
                && r->Err_0->ExecutionFailed_0@ == reason,
            None => r is Ok && r->Ok_0@ == outcome_events(batch@, policy_version, outcomes@),
        },
{
    if outcomes.len() != batch.len() {
        let mut reason = "NVIDIA dispatcher returned ".to_owned();
        reason.append(number(outcomes.len() as u64).as_str());
        reason.append(" outcomes for ");
        reason.append(number(batch.len() as u64).as_str());
        reason.append(" request segments");
        return Err(BackendError::ExecutionFailed(reason));
    }
    let segments = batch.segments();
    let mut events: Vec<ExecutionEvent> = Vec::new();
    let mut index: usize = 0;
    while index < segments.len()
        invariant
            index <= segments@.len(),
            segments@.len() == outcomes@.len(),
            segment_views(segments@) == batch@,
            events@.len() == index,
            first_misfit(batch@, outcomes@, 0) == first_misfit(batch@, outcomes@, index as int),
            forall|i: int|
                0 <= i < index ==> (#[trigger] events@[i])@ == outcome_event(
                    batch@[i],
                    policy_version,
                    outcomes@[i],
                ),
        decreases segments.len() - index,
    {
        assert(batch@[index as int] == segments@[index as int]@);
        let segment = &segments[index];
        let outcome = outcomes[index];
        if segment.requests_sampling() != outcome.output_token.is_some() {
            let mut reason =
                "NVIDIA dispatcher output-token presence did not match sampling for request ".to_owned();
            reason.append(number(segment.request().get()).as_str());
            return Err(BackendError::ExecutionFailed(reason));
        }
        match ExecutionEvent::new(
            segment.request(),
            policy_version,
            segment.phase(),
            segment.token_count(),
            outcome.metrics,
        ) {
            Some(event) => match outcome.output_token {
                Some(token) => events.push(event.with_output_token(token)),
                None => events.push(event),
            },
            None => {},
        }
        index += 1;
    }
    proof {
        assert(event_views(events@) =~= outcome_events(batch@, policy_version, outcomes@));
        assert(distinct_segments(batch@));
    }
    match ExecutionBatchEvent::new(events) {
        Ok(event) => Ok(event),
        Err(error) => Err(BackendError::InvalidPlan(error)),
    }
}

impl NvidiaView {
    /// Whether a further submission can be identified.
    pub open spec fn can_identify(self) -> bool {
        0 < self.next_submission < u64::MAX
    }

    /// The backend after an identity was issued.
    pub open spec fn issued(self) -> NvidiaView {
        NvidiaView { next_submission: (self.next_submission + 1) as u64, ..self }
    }

    /// The backend after the dispatcher accepted a batch: completed where the outcomes are
    /// known, and pending where they are not.
    pub open spec fn accepted(
        self,
        id: u64,
        batch: Seq<ExecutionSegmentView>,
        policy_version: PolicyVersion,
        outcomes: Option<Seq<ExecutionOutcome>>,
    ) -> NvidiaView {
        match outcomes {
            Some(outcomes) => NvidiaView {
                completed: self.completed.insert(
                    id,
                    outcome_events(batch, policy_version, outcomes),
                ),
                ..self
            },
            None => NvidiaView {
                pending: self.pending.insert(id, PendingView { batch, policy_version }),
                ..self
            },
        }
    }

    /// The backend without a pending submission.
    pub open spec fn without_pending(self, id: u64) -> NvidiaView {
        NvidiaView { pending: self.pending.remove(id), ..self }
    }

    /// The backend without a completed submission.
    pub open spec fn without_completed(self, id: u64) -> NvidiaView {
        NvidiaView { completed: self.completed.remove(id), ..self }
    }
}

/// What the dispatcher's answer to a submitted batch makes of a backend: the batch is
/// completed or owed, and outcomes that do not complete it leave nothing behind.
pub open spec fn accepts(
    before: NvidiaView,
    submission: BackendSubmissionId,
    batch: Seq<ExecutionSegmentView>,
    policy_version: PolicyVersion,
    outcomes: Option<Vec<ExecutionOutcome>>,
    after: NvidiaView,
    r: Result<(), BackendError>,
) -> bool {
    match outcomes {
        Some(outcomes) => match outcome_defect(batch, outcomes@) {
            Some(reason) => {
                &&& r is Err
                &&& r->Err_0 is ExecutionFailed
                &&& r->Err_0->ExecutionFailed_0@ == reason
                &&& after == before
            },
            None => r is Ok && after == before.accepted(
                submission@,
                batch,
                policy_version,
                Some(outcomes@),
            ),
        },
        None => r is Ok && after == before.accepted(submission@, batch, policy_version, None),
    }
}

/// What the dispatcher's answer to a batch makes of a backend that has issued an identity for
/// it, and what the backend reports.
pub open spec fn takes(
    before: NvidiaView,
    submission: BackendSubmissionId,
    batch: Seq<ExecutionSegmentView>,
    policy_version: PolicyVersion,
    answer: Result<Option<Vec<ExecutionOutcome>>, BackendError>,
    after: NvidiaView,
    result: Result<BackendSubmissionId, BackendError>,
) -> bool {
    match answer {
        Err(error) => {
            &&& result == Err::<BackendSubmissionId, BackendError>(error)
            &&& after == before.issued()
        },
        Ok(outcomes) => {
            &&& accepts(
                before.issued(),
                submission,
                batch,
                policy_version,
                outcomes,
                after,
                match result {
                    Ok(_) => Ok(()),
                    Err(error) => Err(error),
                },
            )
            &&& result is Ok ==> result->Ok_0 == submission
        },
    }
}

/// What the dispatcher's answer to the poll of a pending submission makes of a backend: any
/// answer but "still pending" ends the submission.
pub open spec fn resolves(
    before: NvidiaView,
    submission: BackendSubmissionId,
    answer: Result<Option<Vec<ExecutionOutcome>>, BackendError>,
    after: NvidiaView,
    r: Result<Option<ExecutionBatchEvent>, BackendError>,
) -> bool {
    if !before.pending.contains_key(submission@) {
        &&& r == Err::<Option<ExecutionBatchEvent>, BackendError>(
            BackendError::UnknownSubmission(submission),
        )
        &&& after == before
    } else {
        match answer {
            Ok(None) => {
                &&& r == Ok::<Option<ExecutionBatchEvent>, BackendError>(None)
                &&& after == before
            },
            Err(error) => {
                &&& r == Err::<Option<ExecutionBatchEvent>, BackendError>(error)
                &&& after == before.without_pending(submission@)
            },
            Ok(Some(outcomes)) => {
                let pending = before.pending[submission@];
                &&& after == before.without_pending(submission@)
                &&& match outcome_defect(pending.batch, outcomes@) {
                    Some(reason) => r is Err && r->Err_0 is ExecutionFailed
                        && r->Err_0->ExecutionFailed_0@ == reason,
                    None => r is Ok && r->Ok_0 is Some && r->Ok_0->Some_0@ == outcome_events(
                        pending.batch,
                        pending.policy_version,
                        outcomes@,
                    ),
                }
            },
        }
    }
}

impl<D> NvidiaBackend<D> {
    /// The dispatcher.
    pub closed spec fn spec_dispatcher(self) -> D {
        self.dispatcher
    }

    /// # Errors
    /// Returns [`BackendError::Unsupported`] when the supplied capabilities do not describe a
    /// CUDA backend.
    pub fn new(capabilities: BackendCapabilities, dispatcher: D) -> (r: Result<Self, BackendError>)
        ensures
            !(capabilities@.kind is Cuda) ==> r == Err::<NvidiaBackend<D>, BackendError>(
                BackendError::Unsupported("CUDA backend capabilities"),
            ),
            capabilities@.kind is Cuda ==> r is Ok && r->Ok_0@ == (NvidiaView {
                capabilities: capabilities@,
                next_submission: 1,
                completed: Map::empty(),
                pending: Map::empty(),
            }) && r->Ok_0.spec_dispatcher() == dispatcher,
    {
        if capabilities.kind() != BackendKind::Cuda {
            return Err(BackendError::Unsupported("CUDA backend capabilities"));
        }
        let backend = NvidiaBackend {
            capabilities,
            dispatcher,
            next_submission: 1,
            completed: HashMap::new(),
            pending: HashMap::new(),
        };
        assert(backend@.completed =~= Map::empty());
        assert(backend@.pending =~= Map::empty());
        Ok(backend)
    }

    #[must_use]
    pub fn dispatcher(&self) -> (r: &D)
        ensures
            *r == self.spec_dispatcher(),
    {
        &self.dispatcher
    }

    #[must_use]
    pub fn dispatcher_mut(&mut self) -> (r: &mut D)
        ensures
            *r == old(self).spec_dispatcher(),
            final(self).spec_dispatcher() == *final(r),
            final(self)@ == old(self)@,
    {
        &mut self.dispatcher
    }

    #[must_use]
    pub fn into_dispatcher(self) -> (r: D)
        ensures
            r == self.spec_dispatcher(),
    {
        self.dispatcher
    }

    /// How many submissions the dispatcher has not completed.
    #[must_use]
    pub fn pending_submissions(&self) -> (r: usize)
        ensures
            r == self@.pending.dom().len(),
    {
        assert(self@.pending.dom() =~= self.pending@.dom());
        self.pending.len()
    }

    fn allocate_submission(&mut self) -> (r: Result<BackendSubmissionId, BackendError>)
        ensures
            final(self).spec_dispatcher() == old(self).spec_dispatcher(),
            old(self)@.can_identify() ==> r is Ok && r->Ok_0@ == old(self)@.next_submission
                && final(self)@ == old(self)@.issued(),
            !old(self)@.can_identify() ==> r is Err && r->Err_0 is ExecutionFailed
                && r->Err_0->ExecutionFailed_0@ == "submission identity overflowed"@ && final(self)@
                == old(self)@,
    {
        match BackendSubmissionId::new(self.next_submission) {
            Some(id) => match self.next_submission.checked_add(1) {
                Some(next) => {
                    self.next_submission = next;
                    Ok(id)
                },
                None => Err(
                    BackendError::ExecutionFailed("submission identity overflowed".to_owned()),
                ),
            },
            None => Err(BackendError::ExecutionFailed("submission identity overflowed".to_owned())),
        }
    }

    /// Keep what the dispatcher answered to a submitted batch: its completion, or the debt
    /// of one.
    ///
    /// # Errors
    /// Returns [`BackendError::ExecutionFailed`] when the outcomes do not complete the batch;
    /// nothing is kept then.
    pub fn accept(
        &mut self,
        submission: BackendSubmissionId,
        plan: &ExecutionPlan,
        batch: &ExecutionBatch,
        outcomes: Option<Vec<ExecutionOutcome>>,
    ) -> (r: Result<(), BackendError>)
        ensures
            final(self).spec_dispatcher() == old(self).spec_dispatcher(),
            accepts(
                old(self)@,
                submission,
                batch@,
                plan@.policy_version,
                outcomes,
                final(self)@,
                r,
            ),
    {
        let ghost before = self@;
        match outcomes {
            Some(outcomes) => {
                let ghost given = outcomes@;
                match completion_event(batch, plan.policy_version(), outcomes) {
                    Ok(event) => {
                        self.completed.insert(submission.get(), event);
                        assert(self@ =~= before.accepted(
                            submission@,
                            batch@,
                            plan@.policy_version,
                            Some(given),
                        ));
                        Ok(())
                    },
                    Err(error) => Err(error),
                }
            },
            None => {
                let pending = PendingNvidiaSubmission {
                    batch: batch.clone(),
                    policy_version: plan.policy_version(),
                };
                self.pending.insert(submission.get(), pending);
                assert(self@ =~= before.accepted(submission@, batch@, plan@.policy_version, None));
                Ok(())
            },
        }
    }

    /// Apply what the dispatcher answered to the poll of a pending submission. Any answer
    /// but "still pending" ends the submission.
    ///
    /// # Errors
    /// Returns the dispatcher's error, [`BackendError::ExecutionFailed`] when the outcomes do
    /// not complete the batch, or [`BackendError::UnknownSubmission`] when the submission is
    /// not pending.
    pub fn resolve(
        &mut self,
        submission: BackendSubmissionId,
        answer: Result<Option<Vec<ExecutionOutcome>>, BackendError>,
    ) -> (r: Result<Option<ExecutionBatchEvent>, BackendError>)
        ensures
            final(self).spec_dispatcher() == old(self).spec_dispatcher(),
            resolves(old(self)@, submission, answer, final(self)@, r),
    {
        let ghost before = self@;
        if !self.pending.contains_key(&submission.get()) {
            return Err(BackendError::UnknownSubmission(submission));
        }
        match answer {
            Ok(None) => Ok(None),
            Err(error) => {
                self.pending.remove(&submission.get());
                assert(self@ =~= before.without_pending(submission@));
                Err(error)
            },
            Ok(Some(outcomes)) => match self.pending.remove(&submission.get()) {
                Some(pending) => {
                    assert(self@ =~= before.without_pending(submission@));
                    match completion_event(&pending.batch, pending.policy_version, outcomes) {
                        Ok(event) => Ok(Some(event)),
                        Err(error) => Err(error),
                    }
                },
                None => Err(BackendError::UnknownSubmission(submission)),
            },
        }
    }
}

impl<D: NvidiaDispatcher> ComputeBackend for NvidiaBackend<D> {
    open spec fn spec_capabilities(&self) -> BackendCapabilitiesView {
        self@.capabilities
    }

    /// Work that the validation refuses, or that can no longer be identified, reaches nothing
    /// and changes nothing. Any other batch is issued the next identity; the dispatcher's
    /// answer decides whether it fails, completes at once or is owed.
    open spec fn submits(
        &self,
        plan: ExecutionPlanView,
        batch: Seq<ExecutionSegmentView>,
        states: Seq<Seq<StateHandle>>,
        after: Self,
        states_after: Seq<Seq<StateHandle>>,
        result: Result<BackendSubmissionId, BackendError>,
    ) -> bool {
        match execution_defect(self@.capabilities, plan, batch, states) {
            Some(error) => {
                &&& result == Err::<BackendSubmissionId, BackendError>(error)
                &&& after@ == self@
                &&& after.spec_dispatcher() == self.spec_dispatcher()
                &&& states_after == states
            },
            None => if !self@.can_identify() {
                &&& result is Err
                &&& result->Err_0 is ExecutionFailed
                &&& result->Err_0->ExecutionFailed_0@ == "submission identity overflowed"@
                &&& after@ == self@
                &&& after.spec_dispatcher() == self.spec_dispatcher()
                &&& states_after == states
            } else {
                exists|
                    id: BackendSubmissionId,
                    answer: Result<Option<Vec<ExecutionOutcome>>, BackendError>,
                |
                    {
                        &&& id@ == self@.next_submission
                        &&& #[trigger] batch_taken(
                            self.spec_dispatcher(),
                            id,
                            plan,
                            batch,
                            plan.weights,
                            states,
                            after.spec_dispatcher(),
                            states_after,
                            answer,
                        )
                        &&& takes(
                            self@,
                            id,
                            batch,
                            plan.policy_version,
                            answer,
                            after@,
                            result,
                        )
                    }
            },
        }
    }

    /// A completed submission is handed out once, and an unknown one is refused. The
    /// dispatcher's answer decides whether an owed one stays owed, fails or completes.
    open spec fn polls(
        &self,
        submission: BackendSubmissionId,
        after: Self,
        result: Result<Option<ExecutionBatchEvent>, BackendError>,
    ) -> bool {
        if self@.completed.contains_key(submission@) {
            &&& result is Ok
            &&& result->Ok_0 is Some
            &&& result->Ok_0->Some_0@ == self@.completed[submission@]
            &&& after@ == self@.without_completed(submission@)
            &&& after.spec_dispatcher() == self.spec_dispatcher()
        } else if !self@.pending.contains_key(submission@) {
            &&& result == Err::<Option<ExecutionBatchEvent>, BackendError>(
                BackendError::UnknownSubmission(submission),
            )
            &&& after@ == self@
            &&& after.spec_dispatcher() == self.spec_dispatcher()
        } else {
            exists|answer: Result<Option<Vec<ExecutionOutcome>>, BackendError>|
                {
                    &&& #[trigger] batch_asked(
                        self.spec_dispatcher(),
                        submission,
                        after.spec_dispatcher(),
                        answer,
                    )
                    &&& resolves(self@, submission, answer, after@, result)
                }
        }
    }

    /// The dispatcher is asked to release the state, and its answer is the backend's.
    open spec fn frees(
        &self,
        state: Seq<StateHandle>,
        after: Self,
        result: Result<(), BackendError>,
    ) -> bool {
        &&& after@ == self@
        &&& (result is Ok && after.spec_dispatcher() == self.spec_dispatcher())
            || self.spec_dispatcher().frees(state, after.spec_dispatcher(), result)
    }

    fn capabilities(&self) -> (r: &BackendCapabilities)
        ensures
            r@ == self@.capabilities,
    {
        &self.capabilities
    }

    fn release_inference_state(&mut self, state: &InferenceStateSet) -> (r: Result<
        (),
        BackendError,
    >)
        ensures
            exists|dispatcher: &mut D| #[trigger]
                call_ensures(D::release_inference_state, (dispatcher, state), r) && *dispatcher
                    == old(self).spec_dispatcher() && *final(dispatcher)
                    == final(self).spec_dispatcher(),
    {
        self.dispatcher.release_inference_state(state)
    }

    fn submit(
        &mut self,
        plan: &ExecutionPlan,
        batch: &ExecutionBatch,
        states: &mut [InferenceStateSet],
    ) -> (r: Result<BackendSubmissionId, BackendError>)
        ensures
            execution_defect(old(self)@.capabilities, plan@, batch@, held(old(states)@)) is None
                && old(self)@.can_identify() ==> exists|
                dispatcher: &mut D,
                submission: BackendSubmissionId,
                weights: &WeightBinding,
                given: &mut [InferenceStateSet],
                answer: Result<Option<Vec<ExecutionOutcome>>, BackendError>,
            | #[trigger]
                call_ensures(
                    D::submit_batch,
                    (dispatcher, submission, plan, batch, weights, given),
                    answer,
                ) && *dispatcher == old(self).spec_dispatcher() && *final(dispatcher)
                    == final(self).spec_dispatcher() && submission@ == old(self)@.next_submission && weights@
                    == plan@.weights && given@ == old(states)@ && final(given)@ == final(states)@
                    && takes(
                    old(self)@,
                    submission,
                    batch@,
                    plan@.policy_version,
                    answer,
                    final(self)@,
                    r,
                ),
    {
        match validate_execution(&self.capabilities, plan, batch, states) {
            Ok(()) => {},
            Err(error) => {
                return Err(error);
            },
        }
        let submission = match self.allocate_submission() {
            Ok(submission) => submission,
            Err(error) => {
                return Err(error);
            },
        };
        let ghost issued = self@;
        let answer = self.dispatcher.submit_batch(submission, plan, batch, plan.weights(), states);
        assert(self@ == issued);
        assert(batch_taken(
            old(self).spec_dispatcher(),
            submission,
            plan@,
            batch@,
            plan@.weights,
            held(old(states)@),
            self.spec_dispatcher(),
            held(states@),
            answer,
        ));
        match answer {
            Err(error) => Err(error),
            Ok(outcomes) => match self.accept(submission, plan, batch, outcomes) {
                Ok(()) => Ok(submission),
                Err(error) => Err(error),
            },
        }
    }

    fn poll(&mut self, submission: BackendSubmissionId) -> (r: Result<
        Option<ExecutionBatchEvent>,
        BackendError,
    >)
        ensures
            !old(self)@.completed.contains_key(submission@) && old(self)@.pending.contains_key(
                submission@,
            ) ==> exists|
                dispatcher: &mut D,
                answer: Result<Option<Vec<ExecutionOutcome>>, BackendError>,
            | #[trigger]
                call_ensures(D::poll_batch, (dispatcher, submission), answer) && *dispatcher == old(
                    self,
                ).spec_dispatcher() && *final(dispatcher) == final(self).spec_dispatcher()
                    && resolves(old(self)@, submission, answer, final(self)@, r),
    {
        let ghost before = self@;
        match self.completed.remove(&submission.get()) {
            Some(event) => {
                assert(self@ =~= before.without_completed(submission@));
                return Ok(Some(event));
            },
            None => {
                assert(self@ =~= before);
            },
        }
        if !self.pending.contains_key(&submission.get()) {
            return Err(BackendError::UnknownSubmission(submission));
        }
        let answer = self.dispatcher.poll_batch(submission);
        assert(self@ == before);
        assert(batch_asked(
            old(self).spec_dispatcher(),
            submission,
            self.spec_dispatcher(),
            answer,
        ));
        self.resolve(submission, answer)
    }
}

/// A submission is answered once: after a completion was handed out, or after a terminal
/// failure, its identity is unknown.
pub proof fn law_answered_submissions_are_unknown(backend: NvidiaView, id: u64)
    requires
        !(backend.completed.contains_key(id) && backend.pending.contains_key(id)),
    ensures
        backend.completed.contains_key(id) ==> {
            let after = backend.without_completed(id);
            !after.completed.contains_key(id) && !after.pending.contains_key(id)
        },
        backend.pending.contains_key(id) ==> {
            let after = backend.without_pending(id);
            !after.completed.contains_key(id) && !after.pending.contains_key(id)
        },
{
}

/// A completion reports exactly the submitted work: its requests in order, its phases and
/// sizes, and an output token exactly where one was asked for.
pub proof fn law_outcomes_report_the_submitted_work(
    batch: Seq<ExecutionSegmentView>,
    policy_version: PolicyVersion,
    outcomes: Seq<ExecutionOutcome>,
    i: int,
)
    requires
        outcome_defect(batch, outcomes) is None,
        0 <= i < batch.len(),
    ensures
        crate::engine::runtime::event_matches(
            batch[i],
            outcome_events(batch, policy_version, outcomes)[i],
            policy_version,
        ),
{
    lemma_no_misfit(batch, outcomes, 0);
    assert(output_fits(batch[i], outcomes[i]));
}

proof fn lemma_no_misfit(
    batch: Seq<ExecutionSegmentView>,
    outcomes: Seq<ExecutionOutcome>,
    i: int,
)
    requires
        0 <= i <= batch.len(),
        first_misfit(batch, outcomes, i) is None,
    ensures
        forall|k: int| i <= k < batch.len() ==> output_fits(#[trigger] batch[k], outcomes[k]),
    decreases batch.len() - i,
{
    if i < batch.len() {
        lemma_no_misfit(batch, outcomes, i + 1);
    }
}

} // verus!
