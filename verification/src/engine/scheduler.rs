//! Deterministic request scheduling and admission for the serving runtime.

use crate::engine::backend::BackendSubmissionId;
use crate::engine::execution::{
    event_views, ExecutionBatchEvent, ExecutionEvent, ExecutionEventView, ExecutionPhase,
};
use crate::engine::policy::{PolicySnapshot, PolicySnapshotView};
use crate::engine::queues::{
    active_kind, all_queued, belongs, consistent, fits, kind_of, lemma_consistent_kind,
    lemma_index, lemma_moved, lemma_moved_all, movable, moved_all, queue_contains, queue_wf,
    QueueKind, Queues, QueuesView,
};
use crate::engine::request::{RequestId, RequestSpec, RequestSpecView};
use crate::engine::scheduler_laws::{
    decode_ready, law_scheduling_is_work_conserving, least_of, served, work_tokens,
};
use crate::engine::serving::{
    lemma_inserted, lemma_removed, lemma_with_slot, ActiveRequestSlot, AdmissionError,
    RequestLifecycle, RequestSlotError, RequestSlotId, RequestSlots, RequestSlotsView, SlotView,
};
use crate::engine::state::{position_of, InferenceStateSet, StateHandle};
use crate::engine::state_manager::held;
use vstd::prelude::*;

verus! {

/// Bounds of a scheduler: some request can become active, some prompt can be processed,
/// and the number of resident requests is representable.
#[derive(Clone, Copy, Debug, Hash, PartialEq, Eq, Structural)]
pub struct SchedulerConfig {
    max_active_requests: usize,
    max_queued_requests: usize,
    prefill_chunk_tokens: u32,
}

/// What a configuration holds.
#[verifier::ext_equal]
pub struct SchedulerConfigView {
    pub max_active_requests: usize,
    pub max_queued_requests: usize,
    pub prefill_chunk_tokens: u32,
}

impl View for SchedulerConfig {
    type V = SchedulerConfigView;

    closed spec fn view(&self) -> SchedulerConfigView {
        SchedulerConfigView {
            max_active_requests: self.max_active_requests,
            max_queued_requests: self.max_queued_requests,
            prefill_chunk_tokens: self.prefill_chunk_tokens,
        }
    }
}

impl SchedulerConfigView {
    /// Whether the bounds are usable.
    pub open spec fn valid(self) -> bool {
        &&& self.max_active_requests > 0
        &&& self.prefill_chunk_tokens > 0
        &&& self.max_resident() <= usize::MAX
    }

    /// How many requests may be resident.
    pub open spec fn max_resident(self) -> int {
        self.max_active_requests + self.max_queued_requests
    }
}

impl SchedulerConfig {
    #[verifier::type_invariant]
    spec fn usable(self) -> bool {
        self@.valid()
    }

    /// # Errors
    /// Returns [`SchedulerError::InvalidConfig`] when no request can become active, the
    /// prefill chunk budget is zero or the number of resident requests is not representable.
    pub fn new(
        max_active_requests: usize,
        max_queued_requests: usize,
        prefill_chunk_tokens: u32,
    ) -> (r: Result<Self, SchedulerError>)
        ensures
            ({
                let config = SchedulerConfigView {
                    max_active_requests,
                    max_queued_requests,
                    prefill_chunk_tokens,
                };
                &&& config.valid() ==> r is Ok && r->Ok_0@ == config
                &&& !config.valid() ==> r == Err::<SchedulerConfig, SchedulerError>(
                    SchedulerError::InvalidConfig,
                )
            }),
    {
        if max_active_requests == 0 || prefill_chunk_tokens == 0 {
            return Err(SchedulerError::InvalidConfig);
        }
        if max_active_requests.checked_add(max_queued_requests).is_none() {
            return Err(SchedulerError::InvalidConfig);
        }
        Ok(SchedulerConfig { max_active_requests, max_queued_requests, prefill_chunk_tokens })
    }

    #[must_use]
    pub fn max_active_requests(self) -> (r: usize)
        ensures
            r == self@.max_active_requests,
            r > 0,
    {
        proof {
            use_type_invariant(&self);
        }
        self.max_active_requests
    }

    #[must_use]
    pub fn max_queued_requests(self) -> (r: usize)
        ensures
            r == self@.max_queued_requests,
    {
        self.max_queued_requests
    }

    #[must_use]
    pub fn prefill_chunk_tokens(self) -> (r: u32)
        ensures
            r == self@.prefill_chunk_tokens,
            r > 0,
    {
        proof {
            use_type_invariant(&self);
        }
        self.prefill_chunk_tokens
    }

    #[must_use]
    pub fn max_resident_requests(self) -> (r: usize)
        ensures
            r == self@.max_resident(),
            self@.valid(),
    {
        proof {
            use_type_invariant(&self);
        }
        self.max_active_requests + self.max_queued_requests
    }
}

/// Work that was selected for one request.
#[derive(Clone, Copy, Debug, Hash, PartialEq, Eq, Structural)]
pub struct ScheduledWork {
    pub slot: RequestSlotId,
    pub request: RequestId,
    pub phase: ExecutionPhase,
    pub token_count: u32,
    pub state_position: u32,
    /// Whether the work ends in an output token: decode work does, and so does the last
    /// chunk of a prompt.
    pub requests_output: bool,
}

impl ScheduledWork {
    #[must_use]
    pub fn slot(self) -> (r: RequestSlotId)
        ensures
            r == self.slot,
    {
        self.slot
    }

    #[must_use]
    pub fn request(self) -> (r: RequestId)
        ensures
            r == self.request,
    {
        self.request
    }

    #[must_use]
    pub fn phase(self) -> (r: ExecutionPhase)
        ensures
            r == self.phase,
    {
        self.phase
    }

    #[must_use]
    pub fn token_count(self) -> (r: u32)
        ensures
            r == self.token_count,
    {
        self.token_count
    }

    #[must_use]
    pub fn state_position(self) -> (r: u32)
        ensures
            r == self.state_position,
    {
        self.state_position
    }

    #[must_use]
    pub fn requests_output(self) -> (r: bool)
        ensures
            r == self.requests_output,
    {
        self.requests_output
    }
}

/// How many requests stand in each queue.
#[derive(Clone, Copy, Debug, Hash, PartialEq, Eq, Structural)]
pub struct SchedulerCounts {
    pub waiting: usize,
    pub runnable: usize,
    pub prepared: usize,
    pub in_flight: usize,
    pub terminal: usize,
}

impl SchedulerCounts {
    #[must_use]
    pub fn waiting(self) -> (r: usize)
        ensures
            r == self.waiting,
    {
        self.waiting
    }

    #[must_use]
    pub fn runnable(self) -> (r: usize)
        ensures
            r == self.runnable,
    {
        self.runnable
    }

    #[must_use]
    pub fn prepared(self) -> (r: usize)
        ensures
            r == self.prepared,
    {
        self.prepared
    }

    #[must_use]
    pub fn in_flight(self) -> (r: usize)
        ensures
            r == self.in_flight,
    {
        self.in_flight
    }

    #[must_use]
    pub fn terminal(self) -> (r: usize)
        ensures
            r == self.terminal,
    {
        self.terminal
    }
}

/// Admits requests, selects their work and follows it through backend submissions.
#[derive(Debug)]
pub struct ServingScheduler {
    policy: PolicySnapshot,
    config: SchedulerConfig,
    slots: RequestSlots,
    queues: Queues,
}

/// What a scheduler holds.
#[verifier::ext_equal]
pub struct SchedulerView {
    pub policy: PolicySnapshotView,
    pub config: SchedulerConfigView,
    pub slots: RequestSlotsView,
    pub queues: QueuesView,
}

impl View for ServingScheduler {
    type V = SchedulerView;

    closed spec fn view(&self) -> SchedulerView {
        SchedulerView {
            policy: self.policy@,
            config: self.config@,
            slots: self.slots@,
            queues: self.queues@,
        }
    }
}

/// The phase of the work that a schedulable request needs next.
pub open spec fn phase_of(slot: SlotView) -> ExecutionPhase {
    if slot.progress.prompt_processed < slot.progress.prompt_tokens {
        ExecutionPhase::Prefill
    } else {
        ExecutionPhase::Decode
    }
}

/// The position that a request's work starts at: that of its state, or what it has
/// processed, where that is representable.
pub open spec fn position_for(slot: SlotView) -> Option<u32> {
    match slot.state {
        Some(handles) if position_of(handles) is Some => position_of(handles),
        _ => if slot.progress.prompt_processed + slot.progress.decode_processed <= u32::MAX {
            Some((slot.progress.prompt_processed + slot.progress.decode_processed) as u32)
        } else {
            None
        },
    }
}

/// Whether work of a request ends in an output token.
pub open spec fn ends_in_output(slot: SlotView, phase: ExecutionPhase, token_count: u32) -> bool {
    phase is Decode || slot.progress.prompt_processed + token_count == slot.progress.prompt_tokens
}

/// Work for a request at a position.
pub open spec fn work_for(
    slot: SlotView,
    phase: ExecutionPhase,
    token_count: u32,
    state_position: u32,
) -> ScheduledWork {
    ScheduledWork {
        slot: slot.id,
        request: slot.request.id,
        phase,
        token_count,
        state_position,
        requests_output: ends_in_output(slot, phase, token_count),
    }
}

/// The lesser of two numbers.
pub open spec fn least(a: int, b: int) -> int {
    if a <= b {
        a
    } else {
        b
    }
}

/// The size of the next prompt chunk under a budget.
pub open spec fn chunk_size(slot: SlotView, chunk: u32, budget: u32) -> u32 {
    least(
        least(slot.progress.prompt_tokens - slot.progress.prompt_processed, chunk as int),
        budget as int,
    ) as u32
}

/// The slots that work names.
pub open spec fn work_slots(work: Seq<ScheduledWork>) -> Seq<RequestSlotId> {
    Seq::new(work.len(), |i: int| work[i].slot)
}

/// Whether work `i` names the slot of earlier work.
pub open spec fn repeats_slot(work: Seq<ScheduledWork>, i: int) -> bool {
    exists|j: int| 0 <= j < i && (#[trigger] work[j]).slot == work[i].slot
}

/// What a completed step makes of a request: the slot after the step, with the output
/// token of a prompt counted, and ended once its output budget is used up.
pub open spec fn completed_slot(
    slot: SlotView,
    event: ExecutionEventView,
    state: Seq<StateHandle>,
) -> SlotView {
    let stepped = slot.stepped(event.phase, event.token_count, state);
    if slot.lifecycle is InFlight {
        let counted = if event.phase is Prefill && event.output_token is Some {
            SlotView { progress: stepped.progress.with_output()->Some_0, ..stepped }
        } else {
            stepped
        };
        if counted.progress.generated_tokens >= slot.request.semantics.max_output_tokens {
            counted.entered(RequestLifecycle::Completed)
        } else {
            counted
        }
    } else {
        stepped
    }
}

/// Why a completed step does not apply to a request, if it does not.
pub open spec fn event_defect(slot: SlotView, event: ExecutionEventView) -> Option<SchedulerError> {
    if slot.request.id != event.request {
        Some(SchedulerError::CompletionRequestMismatch)
    } else if slot.lifecycle is InFlight {
        match slot.progress.recorded(event.phase, event.token_count) {
            None => Some(SchedulerError::Slot(RequestSlotError::ProgressOverflow)),
            Some(progress) => if event.phase is Prefill && event.output_token is Some
                && progress.with_output() is None {
                Some(SchedulerError::Slot(RequestSlotError::ProgressOverflow))
            } else {
                None
            },
        }
    } else {
        None
    }
}

impl SchedulerView {
    /// Queues and slots agree, the active and resident requests are within their bounds,
    /// and nothing waits while a place is free.
    pub open spec fn wf(self) -> bool {
        &&& self.settled()
        &&& self.queues.waiting.len() > 0 ==> self.queues.active()
            == self.config.max_active_requests
    }

    /// As [`Self::wf`], except that a freed place may not have been filled yet.
    pub open spec fn settled(self) -> bool {
        &&& self.config.valid()
        &&& consistent(self.slots, self.queues)
        &&& self.queues.active() <= self.config.max_active_requests
        &&& self.slots.occupied() <= self.config.max_resident()
    }

    /// The scheduler with another table and other queues.
    pub open spec fn with(self, parts: (RequestSlotsView, QueuesView)) -> SchedulerView {
        SchedulerView { slots: parts.0, queues: parts.1, ..self }
    }

    /// The scheduler after one request changed and moved to the queue of its lifecycle.
    pub open spec fn moved(self, id: RequestSlotId, slot: SlotView) -> SchedulerView {
        self.with(
            (
                self.slots.with_slot(id, slot),
                self.queues.moved(
                    id,
                    kind_of(self.slots.slot(id).lifecycle),
                    kind_of(slot.lifecycle),
                ),
            ),
        )
    }

    /// The scheduler after several requests changed.
    pub open spec fn moved_all(self, ids: Seq<RequestSlotId>, targets: Seq<SlotView>) -> SchedulerView {
        self.with(moved_all(self.slots, self.queues, ids, targets, ids.len()))
    }

    /// The scheduler after the oldest waiting request became runnable.
    pub open spec fn promoted(self) -> SchedulerView {
        let id = self.queues.waiting[0];
        SchedulerView {
            slots: self.slots.with_slot(
                id,
                self.slots.slot(id).entered(RequestLifecycle::Runnable),
            ),
            queues: QueuesView {
                waiting: self.queues.waiting.remove(0),
                runnable: self.queues.runnable.push(id),
                ..self.queues
            },
            ..self
        }
    }

    /// The scheduler after free places were given to waiting requests, oldest first.
    pub open spec fn filled(self) -> SchedulerView
        decreases self.queues.waiting.len(),
    {
        if self.queues.active() < self.config.max_active_requests && self.queues.waiting.len()
            > 0 {
            self.promoted().filled()
        } else {
            self
        }
    }

    /// Why a request is not admitted, if it is not.
    pub open spec fn admission_defect(self, request: RequestId) -> Option<SchedulerError> {
        if self.slots.has_request(request) {
            Some(SchedulerError::DuplicateRequest(request))
        } else if self.slots.occupied() >= self.config.max_resident() {
            Some(SchedulerError::Backpressure)
        } else if !self.slots.can_insert() {
            Some(SchedulerError::Slot(RequestSlotError::SlotOverflow))
        } else {
            None
        }
    }

    /// The scheduler after a refused admission: unchanged, but for a cell of the table that
    /// can take no request any more.
    pub open spec fn not_admitted(self, error: SchedulerError) -> SchedulerView {
        if error is Slot {
            SchedulerView { slots: self.slots.exhausted(), ..self }
        } else {
            self
        }
    }

    /// The scheduler after an admission: the request is runnable where a place is free, and
    /// waits where none is.
    pub open spec fn admitted(
        self,
        request: RequestSpecView,
        state: Seq<StateHandle>,
        prompt_tokens: u32,
    ) -> SchedulerView {
        let id = self.slots.next_id();
        let grown = self.slots.inserted(request, state, prompt_tokens);
        if self.queues.active() < self.config.max_active_requests {
            SchedulerView {
                slots: grown.with_slot(
                    id,
                    SlotView::admitted(id, request, state, prompt_tokens).entered(
                        RequestLifecycle::Runnable,
                    ),
                ),
                queues: QueuesView { runnable: self.queues.runnable.push(id), ..self.queues },
                ..self
            }
        } else {
            SchedulerView {
                slots: grown,
                queues: QueuesView { waiting: self.queues.waiting.push(id), ..self.queues },
                ..self
            }
        }
    }

    /// The slot of a resident request.
    pub open spec fn slot_for(self, request: RequestId) -> RequestSlotId {
        choose|id: RequestSlotId|
            self.slots.resolves(id) && self.slots.slot(id).request.id == request
    }

    /// How many requests one iteration may select.
    pub open spec fn sequence_limit(self) -> int {
        least(self.config.max_active_requests as int, self.policy.max_batch_size as int)
    }

    /// The decode work of the runnable requests from `i` on, added to what was selected and
    /// taken from the budget; `None` where a position is not representable.
    pub open spec fn with_decodes(self, i: int, work: Seq<ScheduledWork>, budget: u32) -> Option<
        (Seq<ScheduledWork>, u32),
    >
        decreases self.queues.runnable.len() - i,
    {
        if i < 0 || i >= self.queues.runnable.len() || work.len() >= self.sequence_limit()
            || budget == 0 {
            Some((work, budget))
        } else {
            let slot = self.slots.slot(self.queues.runnable[i]);
            if !(phase_of(slot) is Decode) {
                self.with_decodes(i + 1, work, budget)
            } else {
                match position_for(slot) {
                    None => None,
                    Some(position) => self.with_decodes(
                        i + 1,
                        work.push(work_for(slot, ExecutionPhase::Decode, 1, position)),
                        (budget - 1) as u32,
                    ),
                }
            }
        }
    }

    /// The prompt chunks of the runnable requests from `i` on, added to what was selected
    /// and taken from the budget; `None` where a position is not representable.
    pub open spec fn with_prefills(self, i: int, work: Seq<ScheduledWork>, budget: u32) -> Option<
        (Seq<ScheduledWork>, u32),
    >
        decreases self.queues.runnable.len() - i,
    {
        if i < 0 || i >= self.queues.runnable.len() || work.len() >= self.sequence_limit()
            || budget == 0 {
            Some((work, budget))
        } else {
            let slot = self.slots.slot(self.queues.runnable[i]);
            if !(phase_of(slot) is Prefill) {
                self.with_prefills(i + 1, work, budget)
            } else {
                let count = chunk_size(slot, self.config.prefill_chunk_tokens, budget);
                match position_for(slot) {
                    None => None,
                    Some(position) => self.with_prefills(
                        i + 1,
                        work.push(work_for(slot, ExecutionPhase::Prefill, count, position)),
                        (budget - count) as u32,
                    ),
                }
            }
        }
    }

    /// One scheduling iteration: decode work first, then prompt chunks with what is left;
    /// `None` where a position is not representable.
    pub open spec fn planned(self) -> Option<Seq<ScheduledWork>> {
        match self.with_decodes(0, Seq::empty(), self.policy.max_batch_tokens) {
            None => None,
            Some((work, budget)) => match self.with_prefills(0, work, budget) {
                None => None,
                Some((work, _)) => Some(work),
            },
        }
    }

    /// Why selected work can no longer be submitted, if it cannot.
    pub open spec fn work_defect(self, work: ScheduledWork) -> Option<SchedulerError> {
        let slot = self.slots.slot(work.slot);
        if !self.queues.runnable.contains(work.slot) {
            Some(SchedulerError::StaleWork)
        } else if slot.request.id != work.request || phase_of(slot) != work.phase {
            Some(SchedulerError::StaleWork)
        } else if position_for(slot) is None {
            Some(SchedulerError::PositionOverflow)
        } else if position_for(slot) != Some(work.state_position) {
            Some(SchedulerError::StaleWork)
        } else if work.phase is Decode && work.token_count != 1 {
            Some(SchedulerError::StaleWork)
        } else if work.phase is Prefill && (work.token_count == 0 || work.token_count
            > slot.progress.prompt_tokens - slot.progress.prompt_processed || work.token_count
            > self.config.prefill_chunk_tokens) {
            Some(SchedulerError::StaleWork)
        } else if work.requests_output != ends_in_output(slot, work.phase, work.token_count) {
            Some(SchedulerError::StaleWork)
        } else {
            None
        }
    }

    /// The defect of the first work from `i` on that can no longer be submitted, or that
    /// names a slot a second time.
    pub open spec fn first_work_defect(self, work: Seq<ScheduledWork>, i: int) -> Option<
        SchedulerError,
    >
        decreases work.len() - i,
    {
        if i < 0 || i >= work.len() {
            None
        } else if self.work_defect(work[i]) is Some {
            self.work_defect(work[i])
        } else if repeats_slot(work, i) {
            Some(SchedulerError::StaleWork)
        } else {
            self.first_work_defect(work, i + 1)
        }
    }

    /// Whether all work names prepared requests, each once.
    pub open spec fn all_prepared(self, work: Seq<ScheduledWork>) -> bool {
        &&& forall|i: int|
            0 <= i < work.len() ==> self.queues.prepared.contains((#[trigger] work[i]).slot)
                && self.slots.slot(work[i].slot).request.id == work[i].request
        &&& forall|i: int| 0 <= i < work.len() ==> !#[trigger] repeats_slot(work, i)
    }

    /// The requests among the first `n` in flight whose state a submission owns, in the
    /// order of the submission.
    pub open spec fn owned_among(self, submission: BackendSubmissionId, n: int) -> Seq<
        RequestSlotId,
    >
        decreases n,
    {
        if n <= 0 {
            Seq::empty()
        } else {
            let head = self.owned_among(submission, n - 1);
            let id = self.queues.in_flight[n - 1];
            if self.slots.slot(id).lifecycle.owner() == Some(submission) {
                head.push(id)
            } else {
                head
            }
        }
    }

    /// The requests whose state a submission owns.
    pub open spec fn owned(self, submission: BackendSubmissionId) -> Seq<RequestSlotId> {
        self.owned_among(submission, self.queues.in_flight.len() as int)
    }

    /// The requests of work, their state taken out.
    pub open spec fn lent(self, ids: Seq<RequestSlotId>) -> Seq<SlotView> {
        Seq::new(
            ids.len(),
            |i: int| self.slots.slot(ids[i]).lent(RequestLifecycle::Submitting),
        )
    }

    /// The requests of work, owned by a submission.
    pub open spec fn flying(
        self,
        ids: Seq<RequestSlotId>,
        submission: BackendSubmissionId,
    ) -> Seq<SlotView> {
        Seq::new(
            ids.len(),
            |i: int| self.slots.slot(ids[i]).entered(RequestLifecycle::InFlight(submission)),
        )
    }

    /// Failed requests, each with its state restored.
    pub open spec fn failed(self, ids: Seq<RequestSlotId>, states: Seq<Seq<StateHandle>>) -> Seq<
        SlotView,
    > {
        Seq::new(
            ids.len(),
            |i: int| self.slots.slot(ids[i]).restored(RequestLifecycle::Failed, states[i]),
        )
    }

    /// Requests after a completed step each.
    pub open spec fn completed(
        self,
        ids: Seq<RequestSlotId>,
        events: Seq<ExecutionEventView>,
        states: Seq<Seq<StateHandle>>,
    ) -> Seq<SlotView> {
        Seq::new(
            ids.len(),
            |i: int| completed_slot(self.slots.slot(ids[i]), events[i], states[i]),
        )
    }

    /// The defect of the first event from `i` on that does not apply to its request.
    pub open spec fn first_event_defect(
        self,
        ids: Seq<RequestSlotId>,
        events: Seq<ExecutionEventView>,
        i: int,
    ) -> Option<SchedulerError>
        decreases ids.len() - i,
    {
        if i < 0 || i >= ids.len() {
            None
        } else if event_defect(self.slots.slot(ids[i]), events[i]) is Some {
            event_defect(self.slots.slot(ids[i]), events[i])
        } else {
            self.first_event_defect(ids, events, i + 1)
        }
    }

    /// Why a completion is refused, if it is.
    pub open spec fn completion_defect(
        self,
        submission: BackendSubmissionId,
        events: Seq<ExecutionEventView>,
        state_count: nat,
    ) -> Option<SchedulerError> {
        let ids = self.owned(submission);
        if ids.len() == 0 {
            Some(SchedulerError::UnknownSubmission(submission))
        } else if events.len() != ids.len() {
            Some(SchedulerError::CompletionRequestMismatch)
        } else if state_count != ids.len() {
            Some(SchedulerError::StateCountMismatch)
        } else {
            self.first_event_defect(ids, events, 0)
        }
    }

    /// Why a cancellation is refused, if it is.
    pub open spec fn cancellation_defect(self, request: RequestId) -> Option<SchedulerError> {
        if !self.slots.has_request(request) {
            Some(SchedulerError::UnknownRequest(request))
        } else {
            let lifecycle = self.slots.slot(self.slot_for(request)).lifecycle;
            if lifecycle is Submitting || lifecycle.terminal() {
                Some(SchedulerError::Slot(RequestSlotError::InvalidTransition))
            } else {
                None
            }
        }
    }

    /// The scheduler after a cancellation: a request that no submission owns ends, and one
    /// that is in flight is marked and stays in flight.
    pub open spec fn cancelled(self, request: RequestId) -> SchedulerView {
        let id = self.slot_for(request);
        let slot = self.slots.slot(id);
        match slot.lifecycle.owner() {
            Some(submission) => self.moved(
                id,
                slot.entered(RequestLifecycle::Cancelling(submission)),
            ),
            None => self.moved(id, slot.entered(RequestLifecycle::Cancelled)).filled(),
        }
    }

    /// Why a request cannot be finished, if it cannot.
    pub open spec fn finish_defect(self, request: RequestId) -> Option<SchedulerError> {
        if !self.slots.has_request(request) {
            Some(SchedulerError::UnknownRequest(request))
        } else if !self.queues.runnable.contains(self.slot_for(request)) {
            Some(SchedulerError::InvalidLifecycle)
        } else {
            None
        }
    }

    /// The scheduler after a runnable request finished.
    pub open spec fn finished(self, request: RequestId) -> SchedulerView {
        let id = self.slot_for(request);
        self.moved(id, self.slots.slot(id).entered(RequestLifecycle::Completed)).filled()
    }

    /// The scheduler after the oldest ended request was reclaimed.
    pub open spec fn reclaimed(self) -> SchedulerView {
        SchedulerView {
            slots: self.slots.removed(self.queues.terminal[0]),
            queues: QueuesView { terminal: self.queues.terminal.remove(0), ..self.queues },
            ..self
        }
    }
}

/// Resident requests have one slot each.
pub proof fn lemma_slot_for(view: SchedulerView, id: RequestSlotId)
    requires
        view.slots.wf(),
        view.slots.resolves(id),
    ensures
        view.slot_for(view.slots.slot(id).request.id) == id,
        view.slots.has_request(view.slots.slot(id).request.id),
{
    let request = view.slots.slot(id).request.id;
    let found = view.slot_for(request);
    assert(view.slots.resolves(found) && view.slots.slot(found).request.id == request);
    assert(view.slots.cells[id.index as int].value is Some);
    assert(view.slots.cells[found.index as int].value is Some);
    if found.index < id.index {
        assert(view.slots.cells[found.index as int].value->Some_0.request.id
            != view.slots.cells[id.index as int].value->Some_0.request.id);
    } else if id.index < found.index {
        assert(view.slots.cells[id.index as int].value->Some_0.request.id
            != view.slots.cells[found.index as int].value->Some_0.request.id);
    }
}

/// Every request in a queue is resident and fits it.
pub proof fn lemma_member(view: SchedulerView, kind: QueueKind, id: RequestSlotId)
    requires
        consistent(view.slots, view.queues),
        view.queues.of(kind).contains(id),
    ensures
        belongs(view.slots, id, kind),
        view.slots.slot(id).id == id,
{
    lemma_consistent_kind(view.slots, view.queues, kind);
    let queue = view.queues.of(kind);
    let at = choose|at: int| 0 <= at < queue.len() && queue[at] == id;
    assert(belongs(view.slots, queue[at], kind));
    assert(view.slots.cells[id.index as int].value is Some);
}

/// Giving the oldest waiting request a free place keeps the scheduler settled.
pub proof fn lemma_promoted(view: SchedulerView)
    requires
        view.settled(),
        view.queues.active() < view.config.max_active_requests,
        view.queues.waiting.len() > 0,
    ensures
        view.promoted().settled(),
        view.promoted() == view.moved(
            view.queues.waiting[0],
            view.slots.slot(view.queues.waiting[0]).entered(RequestLifecycle::Runnable),
        ),
        view.promoted().queues.waiting.len() == view.queues.waiting.len() - 1,
        view.promoted().queues.active() == view.queues.active() + 1,
{
    let id = view.queues.waiting[0];
    assert(view.queues.of(QueueKind::Waiting).contains(id));
    lemma_member(view, QueueKind::Waiting, id);
    let slot = view.slots.slot(id).entered(RequestLifecycle::Runnable);
    lemma_moved(view.slots, view.queues, id, slot);
    lemma_with_slot(view.slots, id, slot);
    lemma_index(view.queues.waiting, 0);
}

/// Filling free places ends with the scheduler well formed.
pub proof fn lemma_filled(view: SchedulerView)
    requires
        view.settled(),
    ensures
        view.filled().wf(),
        view.filled().config == view.config,
        view.filled().policy == view.policy,
    decreases view.queues.waiting.len(),
{
    if view.queues.active() < view.config.max_active_requests && view.queues.waiting.len() > 0 {
        lemma_promoted(view);
        lemma_filled(view.promoted());
    }
}

/// Filling free places takes no state from a request, and leaves those that do not wait as
/// they are.
pub proof fn lemma_filled_keeps(view: SchedulerView, id: RequestSlotId)
    requires
        view.settled(),
        view.slots.resolves(id),
    ensures
        view.filled().slots.resolves(id),
        view.filled().slots.slot(id).state == view.slots.slot(id).state,
        !(view.slots.slot(id).lifecycle is Waiting) ==> view.filled().slots.slot(id)
            == view.slots.slot(id),
    decreases view.queues.waiting.len(),
{
    if view.queues.active() < view.config.max_active_requests && view.queues.waiting.len() > 0 {
        let first = view.queues.waiting[0];
        let slot = view.slots.slot(first).entered(RequestLifecycle::Runnable);
        assert(view.queues.of(QueueKind::Waiting).contains(first));
        lemma_member(view, QueueKind::Waiting, first);
        lemma_with_slot(view.slots, first, slot);
        lemma_promoted(view);
        lemma_filled_keeps(view.promoted(), id);
    }
}

/// Moving one request keeps the scheduler settled where no request becomes active.
pub proof fn lemma_settled_after_move(view: SchedulerView, id: RequestSlotId, slot: SlotView)
    requires
        view.settled(),
        view.slots.resolves(id),
        slot.id == id,
        slot.request.id == view.slots.slot(id).request.id,
        fits(slot),
        !active_kind(kind_of(slot.lifecycle)) || active_kind(
            kind_of(view.slots.slot(id).lifecycle),
        ),
    ensures
        view.moved(id, slot).settled(),
{
    lemma_moved(view.slots, view.queues, id, slot);
    lemma_with_slot(view.slots, id, slot);
}

/// An admission keeps the queues consistent.
proof fn lemma_admitted(
    view: SchedulerView,
    request: RequestSpecView,
    state: Seq<StateHandle>,
    prompt_tokens: u32,
)
    requires
        view.wf(),
        view.admission_defect(request.id) is None,
        request.semantics.max_output_tokens > 0,
    ensures
        view.admitted(request, state, prompt_tokens).wf(),
{
    let id = view.slots.next_id();
    let grown = view.slots.inserted(request, state, prompt_tokens);
    lemma_inserted(view.slots, request, state, prompt_tokens);
    let queued = QueuesView { waiting: view.queues.waiting.push(id), ..view.queues };
    assert forall|kind: QueueKind| !#[trigger] view.queues.of(kind).contains(id) by {
        if view.queues.of(kind).contains(id) {
            lemma_member(view, kind, id);
        }
    }
    assert forall|kind: QueueKind| #[trigger]
        queue_wf(grown, view.queues.of(kind), kind) by {
        lemma_consistent_kind(view.slots, view.queues, kind);
        let queue = view.queues.of(kind);
        assert forall|i: int| 0 <= i < queue.len() implies belongs(
            grown,
            #[trigger] queue[i],
            kind,
        ) by {
            assert(queue.contains(queue[i]));
            assert(belongs(view.slots, queue[i], kind));
            assert(queue[i] != id);
            assert(grown.resolves(queue[i]));
            assert(grown.slot(queue[i]) == view.slots.slot(queue[i]));
        }
    }
    assert(queue_wf(grown, queued.waiting, QueueKind::Waiting)) by {
        assert(queue_wf(grown, view.queues.of(QueueKind::Waiting), QueueKind::Waiting));
        assert(!view.queues.of(QueueKind::Waiting).contains(id));
        assert(grown.resolves(id));
        let queue = queued.waiting;
        assert forall|i: int| 0 <= i < queue.len() implies belongs(
            grown,
            #[trigger] queue[i],
            QueueKind::Waiting,
        ) by {
            if i < view.queues.waiting.len() {
                assert(queue[i] == view.queues.waiting[i]);
                assert(belongs(grown, view.queues.waiting[i], QueueKind::Waiting));
            }
        }
        assert forall|a: int, b: int|
            0 <= a < queue.len() && 0 <= b < queue.len() && a != b implies queue[a] != queue[b] by {
            if a < view.queues.waiting.len() && b < view.queues.waiting.len() {
                assert(view.queues.waiting[a] != view.queues.waiting[b]);
            } else if a < view.queues.waiting.len() {
                assert(view.queues.waiting.contains(view.queues.waiting[a]));
            } else {
                assert(view.queues.waiting.contains(view.queues.waiting[b]));
            }
        }
    }
    assert(queue_wf(grown, view.queues.of(QueueKind::Runnable), QueueKind::Runnable));
    assert(queue_wf(grown, view.queues.of(QueueKind::Prepared), QueueKind::Prepared));
    assert(queue_wf(grown, view.queues.of(QueueKind::InFlight), QueueKind::InFlight));
    assert(queue_wf(grown, view.queues.of(QueueKind::Terminal), QueueKind::Terminal));
    assert(all_queued(grown, queued)) by {
        assert forall|other: RequestSlotId| #[trigger] grown.resolves(other) implies queued.of(
            kind_of(grown.slot(other).lifecycle),
        ).contains(other) by {
            if other == id {
                assert(queued.waiting[view.queues.waiting.len() as int] == id);
            } else {
                assert(view.slots.resolves(other));
                assert(grown.slot(other) == view.slots.slot(other));
                let kind = kind_of(view.slots.slot(other).lifecycle);
                assert(view.queues.of(kind).contains(other));
                if kind is Waiting {
                    let at = choose|at: int|
                        0 <= at < view.queues.waiting.len() && view.queues.waiting[at] == other;
                    assert(queued.waiting[at] == other);
                }
            }
        }
    }
    assert(consistent(grown, queued));
    if view.queues.active() < view.config.max_active_requests {
        let slot = SlotView::admitted(id, request, state, prompt_tokens).entered(
            RequestLifecycle::Runnable,
        );
        lemma_moved(grown, queued, id, slot);
        lemma_with_slot(grown, id, slot);
        lemma_index(queued.waiting, view.queues.waiting.len() as int);
        assert(queued.waiting.remove(view.queues.waiting.len() as int) =~= view.queues.waiting);
        assert(queued.moved(id, QueueKind::Waiting, QueueKind::Runnable)
            =~= view.admitted(request, state, prompt_tokens).queues);
    }
}

/// Reclaiming an ended request keeps the scheduler well formed.
proof fn lemma_reclaimed(view: SchedulerView)
    requires
        view.wf(),
        view.queues.terminal.len() > 0,
    ensures
        view.reclaimed().wf(),
        view.slots.resolves(view.queues.terminal[0]),
        view.slots.removal_defect(view.queues.terminal[0]) is None,
{
    let id = view.queues.terminal[0];
    let after = view.reclaimed();
    assert(view.queues.of(QueueKind::Terminal).contains(id));
    lemma_member(view, QueueKind::Terminal, id);
    lemma_removed(view.slots, id);
    assert forall|kind: QueueKind| #[trigger]
        queue_wf(after.slots, after.queues.of(kind), kind) by {
        lemma_consistent_kind(view.slots, view.queues, kind);
        let before = view.queues.of(kind);
        let queue = after.queues.of(kind);
        assert forall|i: int| 0 <= i < queue.len() implies belongs(
            after.slots,
            #[trigger] queue[i],
            kind,
        ) by {
            let at = if kind is Terminal {
                i + 1
            } else {
                i
            };
            assert(queue[i] == before[at]);
            assert(belongs(view.slots, before[at], kind));
            if kind is Terminal {
                assert(before[0] != before[at]);
            }
            assert(queue[i] != id);
            assert(after.slots.resolves(queue[i]));
            assert(after.slots.slot(queue[i]) == view.slots.slot(queue[i]));
        }
        if kind is Terminal {
            assert forall|a: int, b: int|
                0 <= a < queue.len() && 0 <= b < queue.len() && a != b implies queue[a]
                != queue[b] by {
                assert(before[a + 1] != before[b + 1]);
            }
        }
    }
    assert(queue_wf(after.slots, after.queues.of(QueueKind::Waiting), QueueKind::Waiting));
    assert(queue_wf(after.slots, after.queues.of(QueueKind::Runnable), QueueKind::Runnable));
    assert(queue_wf(after.slots, after.queues.of(QueueKind::Prepared), QueueKind::Prepared));
    assert(queue_wf(after.slots, after.queues.of(QueueKind::InFlight), QueueKind::InFlight));
    assert(queue_wf(after.slots, after.queues.of(QueueKind::Terminal), QueueKind::Terminal));
    assert forall|other: RequestSlotId| #[trigger]
        after.slots.resolves(other) implies after.queues.of(
        kind_of(after.slots.slot(other).lifecycle),
    ).contains(other) by {
        assert(other != id);
        assert(view.slots.resolves(other));
        assert(after.slots.slot(other) == view.slots.slot(other));
        let kind = kind_of(view.slots.slot(other).lifecycle);
        assert(view.queues.of(kind).contains(other));
        if kind is Terminal {
            let at = choose|at: int|
                0 <= at < view.queues.terminal.len() && view.queues.terminal[at] == other;
            assert(after.queues.terminal[at - 1] == other);
        }
    }
}

/// The requests that a submission owns are in flight, distinct and owned by it.
proof fn lemma_owned(view: SchedulerView, submission: BackendSubmissionId, n: int)
    requires
        consistent(view.slots, view.queues),
        0 <= n <= view.queues.in_flight.len(),
    ensures
        ({
            let ids = view.owned_among(submission, n);
            &&& ids.len() <= n
            &&& ids.no_duplicates()
            &&& forall|i: int|
                0 <= i < ids.len() ==> view.slots.slot(#[trigger] ids[i]).lifecycle.owner() == Some(
                    submission,
                ) && view.queues.in_flight.take(n).contains(ids[i])
        }),
    decreases n,
{
    if n > 0 {
        lemma_owned(view, submission, n - 1);
        let head = view.owned_among(submission, n - 1);
        let ids = view.owned_among(submission, n);
        let id = view.queues.in_flight[n - 1];
        assert(view.queues.in_flight.take(n)[n - 1] == id);
        assert forall|i: int| 0 <= i < ids.len() implies view.slots.slot(
            #[trigger] ids[i],
        ).lifecycle.owner() == Some(submission) && view.queues.in_flight.take(n).contains(
            ids[i],
        ) by {
            if i < head.len() {
                assert(ids[i] == head[i]);
                assert(view.queues.in_flight.take(n - 1).contains(head[i]));
                let earlier = view.queues.in_flight.take(n - 1);
                let at = choose|at: int| 0 <= at < earlier.len() && earlier[at] == head[i];
                assert(view.queues.in_flight.take(n)[at] == head[i]);
            }
        }
        assert forall|a: int, b: int|
            0 <= a < ids.len() && 0 <= b < ids.len() && a != b implies ids[a] != ids[b] by {
            if a < head.len() && b < head.len() {
                assert(head[a] != head[b]);
            } else if a < head.len() {
                lemma_not_last(view, submission, n, a);
            } else {
                lemma_not_last(view, submission, n, b);
            }
        }
    }
}

proof fn lemma_not_last(view: SchedulerView, submission: BackendSubmissionId, n: int, a: int)
    requires
        consistent(view.slots, view.queues),
        0 < n <= view.queues.in_flight.len(),
        0 <= a < view.owned_among(submission, n - 1).len(),
        view.queues.in_flight.take(n - 1).contains(view.owned_among(submission, n - 1)[a]),
    ensures
        view.owned_among(submission, n - 1)[a] != view.queues.in_flight[n - 1],
{
    let id = view.owned_among(submission, n - 1)[a];
    let head = view.queues.in_flight.take(n - 1);
    let at = choose|at: int| 0 <= at < head.len() && head[at] == id;
    assert(view.queues.in_flight[at] == id);
}

/// What a submission owns, as members of the queue in flight.
pub proof fn lemma_owned_members(view: SchedulerView, submission: BackendSubmissionId)
    requires
        consistent(view.slots, view.queues),
    ensures
        view.owned(submission).no_duplicates(),
        forall|i: int|
            #![trigger view.owned(submission)[i]]
            0 <= i < view.owned(submission).len() ==> {
                let id = view.owned(submission)[i];
                &&& belongs(view.slots, id, QueueKind::InFlight)
                &&& view.slots.slot(id).id == id
                &&& view.slots.slot(id).lifecycle.owner() == Some(submission)
            },
{
    let n = view.queues.in_flight.len() as int;
    lemma_owned(view, submission, n);
    assert(view.queues.in_flight.take(n) =~= view.queues.in_flight);
    let ids = view.owned(submission);
    assert forall|i: int| 0 <= i < ids.len() implies belongs(
        view.slots,
        #[trigger] ids[i],
        QueueKind::InFlight,
    ) && view.slots.slot(ids[i]).id == ids[i] by {
        assert(view.queues.of(QueueKind::InFlight).contains(ids[i]));
        lemma_member(view, QueueKind::InFlight, ids[i]);
    }
}

/// A completed step leaves a request that fits its queue.
pub proof fn lemma_completed_slot(slot: SlotView, event: ExecutionEventView, state: Seq<StateHandle>)
    requires
        fits(slot),
        kind_of(slot.lifecycle) is InFlight,
        event_defect(slot, event) is None,
    ensures
        fits(completed_slot(slot, event, state)),
        completed_slot(slot, event, state).id == slot.id,
        completed_slot(slot, event, state).request == slot.request,
        kind_of(completed_slot(slot, event, state).lifecycle) is Runnable || kind_of(
            completed_slot(slot, event, state).lifecycle,
        ) is Terminal,
{
}

pub proof fn lemma_no_event_defect(
    view: SchedulerView,
    ids: Seq<RequestSlotId>,
    events: Seq<ExecutionEventView>,
    i: int,
)
    requires
        0 <= i <= ids.len(),
        view.first_event_defect(ids, events, i) is None,
    ensures
        forall|k: int|
            i <= k < ids.len() ==> event_defect(
                view.slots.slot(#[trigger] ids[k]),
                events[k],
            ) is None,
    decreases ids.len() - i,
{
    if i < ids.len() {
        lemma_no_event_defect(view, ids, events, i + 1);
    }
}

pub proof fn lemma_no_work_defect(view: SchedulerView, work: Seq<ScheduledWork>, i: int)
    requires
        0 <= i <= work.len(),
        view.first_work_defect(work, i) is None,
    ensures
        forall|k: int|
            i <= k < work.len() ==> view.work_defect(#[trigger] work[k]) is None && !repeats_slot(
                work,
                k,
            ),
    decreases work.len() - i,
{
    if i < work.len() {
        lemma_no_work_defect(view, work, i + 1);
    }
}

pub proof fn lemma_distinct_slots(work: Seq<ScheduledWork>)
    requires
        forall|k: int| 0 <= k < work.len() ==> !#[trigger] repeats_slot(work, k),
    ensures
        work_slots(work).no_duplicates(),
{
    let ids = work_slots(work);
    assert forall|a: int, b: int|
        0 <= a < ids.len() && 0 <= b < ids.len() && a != b implies ids[a] != ids[b] by {
        if a < b {
            assert(!repeats_slot(work, b));
            assert(work[a].slot == ids[a]);
        } else {
            assert(!repeats_slot(work, a));
            assert(work[b].slot == ids[b]);
        }
    }
}

/// Moving several active requests out of the way keeps the scheduler settled.
pub proof fn lemma_settled_after_moves(
    view: SchedulerView,
    ids: Seq<RequestSlotId>,
    targets: Seq<SlotView>,
)
    requires
        view.settled(),
        movable(view.slots, ids, targets),
    ensures
        view.moved_all(ids, targets).settled(),
        view.moved_all(ids, targets).config == view.config,
        view.moved_all(ids, targets).policy == view.policy,
        view.wf() && (forall|i: int|
            0 <= i < ids.len() ==> active_kind(kind_of((#[trigger] targets[i]).lifecycle)))
            ==> view.moved_all(ids, targets).wf(),
{
    lemma_moved_all(view.slots, view.queues, ids, targets, ids.len());
}

/// The next one of several moves, seen from the state before all of them.
proof fn lemma_next_move(
    view: SchedulerView,
    ids: Seq<RequestSlotId>,
    targets: Seq<SlotView>,
    n: int,
)
    requires
        view.settled(),
        movable(view.slots, ids, targets),
        0 <= n < ids.len(),
    ensures
        ({
            let before = moved_all(view.slots, view.queues, ids, targets, n as nat);
            let from = kind_of(view.slots.slot(ids[n]).lifecycle);
            &&& before.0.resolves(ids[n])
            &&& before.0.slot(ids[n]) == view.slots.slot(ids[n])
            &&& before.1.of(from).contains(ids[n])
            &&& before.1.of(from).no_duplicates()
            &&& moved_all(view.slots, view.queues, ids, targets, (n + 1) as nat) == (
                before.0.with_slot(ids[n], targets[n]),
                before.1.moved(ids[n], from, kind_of(targets[n].lifecycle)),
            )
        }),
{
    lemma_moved_all(view.slots, view.queues, ids, targets, n as nat);
    let before = moved_all(view.slots, view.queues, ids, targets, n as nat);
    assert(!ids.take(n).contains(ids[n])) by {
        if ids.take(n).contains(ids[n]) {
            let at = choose|at: int| 0 <= at < ids.take(n).len() && ids.take(n)[at] == ids[n];
            assert(ids[at] == ids[n]);
        }
    }
    assert(view.slots.resolves(ids[n]));
    assert(before.0.resolves(ids[n]));
    assert(before.0.slot(ids[n]) == view.slots.slot(ids[n]));
    lemma_consistent_kind(before.0, before.1, kind_of(view.slots.slot(ids[n]).lifecycle));
}

fn phase_for(slot: &ActiveRequestSlot) -> (r: ExecutionPhase)
    ensures
        r == phase_of(slot@),
{
    if slot.progress().prompt_processed < slot.progress().prompt_tokens {
        ExecutionPhase::Prefill
    } else {
        ExecutionPhase::Decode
    }
}

fn state_position(slot: &ActiveRequestSlot) -> (r: Option<u32>)
    ensures
        r == position_for(slot@),
{
    if let Some(state) = slot.state() {
        if let Some(position) = state.token_position() {
            return Some(position);
        }
    }
    slot.progress().prompt_processed.checked_add(slot.progress().decode_processed)
}

fn reaches_output(slot: &ActiveRequestSlot, phase: ExecutionPhase, token_count: u32) -> (r: bool)
    ensures
        r == ends_in_output(slot@, phase, token_count),
{
    phase == ExecutionPhase::Decode || slot.progress().prompt_processed as u64 + token_count as u64
        == slot.progress().prompt_tokens as u64
}

fn make_work(slot: &ActiveRequestSlot, phase: ExecutionPhase, token_count: u32) -> (r: Option<
    ScheduledWork,
>)
    ensures
        r == match position_for(slot@) {
            Some(position) => Some(work_for(slot@, phase, token_count, position)),
            None => None,
        },
{
    match state_position(slot) {
        Some(position) => Some(
            ScheduledWork {
                slot: slot.id(),
                request: slot.request().id(),
                phase,
                token_count,
                state_position: position,
                requests_output: reaches_output(slot, phase, token_count),
            },
        ),
        None => None,
    }
}

fn check_event(slot: &ActiveRequestSlot, event: &ExecutionEvent) -> (r: Option<SchedulerError>)
    ensures
        r == event_defect(slot@, event@),
{
    if slot.request().id() != event.request() {
        return Some(SchedulerError::CompletionRequestMismatch);
    }
    match slot.lifecycle() {
        RequestLifecycle::InFlight(_) => {
            let mut progress = slot.progress();
            match progress.record(event.phase(), event.token_count()) {
                Err(_) => {
                    return Some(SchedulerError::Slot(RequestSlotError::ProgressOverflow));
                },
                Ok(()) => {},
            }
            if event.phase() == ExecutionPhase::Prefill && event.output_token().is_some() {
                match progress.record_output() {
                    Err(_) => {
                        return Some(SchedulerError::Slot(RequestSlotError::ProgressOverflow));
                    },
                    Ok(()) => {},
                }
            }
            None
        },
        _ => None,
    }
}

fn repeats_earlier(work: &[ScheduledWork], index: usize) -> (r: bool)
    requires
        index < work@.len(),
    ensures
        r == repeats_slot(work@, index as int),
{
    let mut earlier: usize = 0;
    while earlier < index
        invariant
            earlier <= index < work@.len(),
            forall|j: int| 0 <= j < earlier
                ==> (#[trigger] work@[j]).slot != work@[index as int].slot,
        decreases index - earlier,
    {
        if work[earlier].slot == work[index].slot {
            return true;
        }
        earlier += 1;
    }
    false
}

impl ServingScheduler {
    #[must_use]
    pub fn new(policy: PolicySnapshot, config: SchedulerConfig) -> (r: Self)
        ensures
            r@.wf(),
            r@ == (SchedulerView {
                policy: policy@,
                config: config@,
                slots: RequestSlotsView::empty(),
                queues: QueuesView::empty(),
            }),
    {
        proof {
            use_type_invariant(&config);
        }
        let r = ServingScheduler {
            policy,
            config,
            slots: RequestSlots::default(),
            queues: Queues::new(),
        };
        assert(all_queued(r@.slots, r@.queues));
        r
    }

    #[must_use]
    pub fn policy(&self) -> (r: PolicySnapshot)
        ensures
            r@ == self@.policy,
    {
        self.policy
    }

    #[must_use]
    pub fn config(&self) -> (r: SchedulerConfig)
        ensures
            r@ == self@.config,
    {
        self.config
    }

    #[must_use]
    pub fn slots(&self) -> (r: &RequestSlots)
        ensures
            r@ == self@.slots,
    {
        &self.slots
    }

    #[must_use]
    pub fn counts(&self) -> (r: SchedulerCounts)
        ensures
            r.waiting == self@.queues.waiting.len(),
            r.runnable == self@.queues.runnable.len(),
            r.prepared == self@.queues.prepared.len(),
            r.in_flight == self@.queues.in_flight.len(),
            r.terminal == self@.queues.terminal.len(),
    {
        SchedulerCounts {
            waiting: self.queues.waiting.len(),
            runnable: self.queues.runnable.len(),
            prepared: self.queues.prepared.len(),
            in_flight: self.queues.in_flight.len(),
            terminal: self.queues.terminal.len(),
        }
    }

    #[must_use]
    pub fn slot_for_request(&self, request: RequestId) -> (r: Option<RequestSlotId>)
        requires
            self@.wf(),
        ensures
            self@.slots.has_request(request) ==> r == Some(self@.slot_for(request))
                && self@.slots.resolves(self@.slot_for(request)) && self@.slots.slot(
                self@.slot_for(request),
            ).request.id == request,
            !self@.slots.has_request(request) ==> r is None,
    {
        let found = self.slots.find(request);
        proof {
            if let Some(id) = found {
                lemma_slot_for(self@, id);
            }
        }
        found
    }

    /// Admit one request into scheduler-owned persistent state. It becomes runnable where a
    /// place among the active requests is free, and waits otherwise.
    ///
    /// # Errors
    /// Returns [`SchedulerError::DuplicateRequest`], [`SchedulerError::Backpressure`] when
    /// resident capacity is exhausted, or a slot error when the table is; the state is
    /// handed back.
    pub fn admit_request(
        &mut self,
        request: RequestSpec,
        state: InferenceStateSet,
        prompt_tokens: u32,
    ) -> (r: Result<RequestSlotId, AdmissionError<SchedulerError>>)
        requires
            old(self)@.wf(),
        ensures
            final(self)@.wf(),
            match old(self)@.admission_defect(request@.id) {
                Some(error) => {
                    &&& r is Err
                    &&& r->Err_0.reason() == error
                    &&& r->Err_0.returned() == state@
                    &&& final(self)@ == old(self)@.not_admitted(error)
                },
                None => {
                    r is Ok && r->Ok_0 == old(self)@.slots.next_id()
                        && final(self)@ == old(self)@.admitted(request@, state@, prompt_tokens)
                },
            },
    {
        let ghost before = self@;
        let request_id = request.id();
        if self.slots.find(request_id).is_some() {
            return Err(AdmissionError::new(SchedulerError::DuplicateRequest(request_id), state));
        }
        if self.slots.len() >= self.config.max_resident_requests() {
            return Err(AdmissionError::new(SchedulerError::Backpressure, state));
        }
        let ghost spec = request@;
        let ghost handles = state@;
        let id = match self.slots.insert(request, state, prompt_tokens) {
            Ok(id) => id,
            Err(refused) => {
                let (error, state) = refused.into_parts();
                proof {
                    lemma_same_cells(before, self@);
                }
                return Err(AdmissionError::new(SchedulerError::Slot(error), state));
            },
        };
        proof {
            lemma_inserted(before.slots, spec, handles, prompt_tokens);
            lemma_admitted(before, spec, handles, prompt_tokens);
        }
        if self.queues.active() < self.config.max_active_requests() {
            if let Some(slot) = self.slots.get_mut(id) {
                let _ = slot.make_runnable();
            }
            self.queues.runnable.push(id);
        } else {
            self.queues.waiting.push(id);
        }
        assert(self@ =~= before.admitted(spec, handles, prompt_tokens));
        Ok(id)
    }

    /// Select one deterministic scheduling iteration. Decode work is selected first;
    /// remaining sequence and token budget is filled with chunked prefill. Selection does
    /// not change request lifecycle until submission begins.
    ///
    /// # Errors
    /// Returns [`SchedulerError::PositionOverflow`] when the position of selected work is not
    /// representable.
    pub fn schedule(&self) -> (r: Result<Vec<ScheduledWork>, SchedulerError>)
        requires
            self@.wf(),
        ensures
            match self@.planned() {
                Some(work) => r is Ok && r->Ok_0@ == work,
                None => r == Err::<Vec<ScheduledWork>, SchedulerError>(
                    SchedulerError::PositionOverflow,
                ),
            },
            r matches Ok(work) && work@.len() < self@.config.max_active_requests && work@.len()
                < self@.policy.max_batch_size && work_tokens(work@) < self@.policy.max_batch_tokens
                ==> forall|j: int|
                0 <= j < self@.queues.runnable.len() ==> served(
                    r->Ok_0@,
                    #[trigger] self@.queues.runnable[j],
                ),
            r is Ok ==> forall|j: int|
                0 <= j < self@.queues.runnable.len() && decode_ready(
                    self@,
                    #[trigger] self@.queues.runnable[j],
                ) && !served(r->Ok_0@, self@.queues.runnable[j]) ==> {
                    &&& r->Ok_0@.len() == least_of(
                        self@.config.max_active_requests as int,
                        self@.policy.max_batch_size as int,
                        self@.policy.max_batch_tokens as int,
                    )
                    &&& forall|k: int|
                        0 <= k < r->Ok_0@.len() ==> (#[trigger] r->Ok_0@[k]).phase is Decode
                            && r->Ok_0@[k].token_count == 1
                },
    {
        let batch: usize = self.policy.max_batch_size() as usize;
        let limit: usize = if self.config.max_active_requests() <= batch {
            self.config.max_active_requests()
        } else {
            batch
        };
        let mut budget: u32 = self.policy.max_batch_tokens();
        let mut work: Vec<ScheduledWork> = Vec::new();
        let ghost start = self@.with_decodes(0, Seq::empty(), self@.policy.max_batch_tokens);
        let mut index: usize = 0;
        assert(work@ =~= Seq::empty());
        while index < self.queues.runnable.len() && work.len() < limit && budget > 0
            invariant
                index <= self@.queues.runnable.len(),
                self@.wf(),
                limit == self@.sequence_limit(),
                start == self@.with_decodes(0, Seq::empty(), self@.policy.max_batch_tokens),
                start == self@.with_decodes(index as int, work@, budget),
            decreases self.queues.runnable.len() - index,
        {
            let id = self.queues.runnable[index];
            proof {
                assert(self@.queues.of(QueueKind::Runnable).contains(id));
                lemma_member(self@, QueueKind::Runnable, id);
            }
            if let Some(slot) = self.slots.get(id) {
                if phase_for(slot) == ExecutionPhase::Decode {
                    match make_work(slot, ExecutionPhase::Decode, 1) {
                        Some(item) => {
                            work.push(item);
                            budget -= 1;
                        },
                        None => {
                            return Err(SchedulerError::PositionOverflow);
                        },
                    }
                }
            }
            index += 1;
        }
        assert(start == Some((work@, budget)));
        let ghost rest = self@.with_prefills(0, work@, budget);
        let mut index: usize = 0;
        while index < self.queues.runnable.len() && work.len() < limit && budget > 0
            invariant
                index <= self@.queues.runnable.len(),
                self@.wf(),
                limit == self@.sequence_limit(),
                self@.planned() == match rest {
                    Some((work, _)) => Some(work),
                    None => None::<Seq<ScheduledWork>>,
                },
                rest == self@.with_prefills(index as int, work@, budget),
            decreases self.queues.runnable.len() - index,
        {
            let id = self.queues.runnable[index];
            proof {
                assert(self@.queues.of(QueueKind::Runnable).contains(id));
                lemma_member(self@, QueueKind::Runnable, id);
            }
            if let Some(slot) = self.slots.get(id) {
                if phase_for(slot) == ExecutionPhase::Prefill {
                    let remaining: u32 = slot.progress().prompt_tokens
                        - slot.progress().prompt_processed;
                    let chunk: u32 = self.config.prefill_chunk_tokens();
                    let wanted: u32 = if remaining <= chunk {
                        remaining
                    } else {
                        chunk
                    };
                    let count: u32 = if wanted <= budget {
                        wanted
                    } else {
                        budget
                    };
                    match make_work(slot, ExecutionPhase::Prefill, count) {
                        Some(item) => {
                            work.push(item);
                            budget -= count;
                        },
                        None => {
                            return Err(SchedulerError::PositionOverflow);
                        },
                    }
                }
            }
            index += 1;
        }
        proof {
            law_scheduling_is_work_conserving(self@);
        }
        Ok(work)
    }

    fn check_work(&self, work: ScheduledWork) -> (r: Option<SchedulerError>)
        requires
            self@.wf(),
        ensures
            r == self@.work_defect(work),
    {
        if !queue_contains(&self.queues.runnable, work.slot) {
            return Some(SchedulerError::StaleWork);
        }
        proof {
            assert(self@.queues.of(QueueKind::Runnable).contains(work.slot));
            lemma_member(self@, QueueKind::Runnable, work.slot);
        }
        match self.slots.get(work.slot) {
            None => Some(SchedulerError::StaleWork),
            Some(slot) => {
                if slot.request().id() != work.request || phase_for(slot) != work.phase {
                    return Some(SchedulerError::StaleWork);
                }
                match state_position(slot) {
                    None => {
                        return Some(SchedulerError::PositionOverflow);
                    },
                    Some(position) => {
                        if position != work.state_position {
                            return Some(SchedulerError::StaleWork);
                        }
                    },
                }
                if work.phase == ExecutionPhase::Decode && work.token_count != 1 {
                    return Some(SchedulerError::StaleWork);
                }
                if work.phase == ExecutionPhase::Prefill {
                    let remaining: u32 = slot.progress().prompt_tokens
                        - slot.progress().prompt_processed;
                    if work.token_count == 0 || work.token_count > remaining || work.token_count
                        > self.config.prefill_chunk_tokens() {
                        return Some(SchedulerError::StaleWork);
                    }
                }
                if work.requests_output != reaches_output(slot, work.phase, work.token_count) {
                    return Some(SchedulerError::StaleWork);
                }
                None
            },
        }
    }

    /// Take the state of selected requests out of their slots, in the order of the work. All
    /// of the work is checked before any state is taken.
    ///
    /// # Errors
    /// Returns [`SchedulerError::StaleWork`] for work that is no longer runnable or that
    /// names a slot twice, or [`SchedulerError::PositionOverflow`]; nothing is changed then.
    pub fn prepare_submission(&mut self, work: &[ScheduledWork]) -> (r: Result<
        Vec<InferenceStateSet>,
        SchedulerError,
    >)
        requires
            old(self)@.wf(),
        ensures
            final(self)@.wf(),
            match old(self)@.first_work_defect(work@, 0) {
                Some(error) => {
                    r == Err::<Vec<InferenceStateSet>, SchedulerError>(error)
                        && final(self)@ == old(self)@
                },
                None => {
                    let ids = work_slots(work@);
                    &&& r is Ok
                    &&& r->Ok_0@.len() == work@.len()
                    &&& forall|i: int|
                        0 <= i < work@.len() ==> Some((#[trigger] r->Ok_0@[i])@) == old(self)@.slots.slot(work@[i].slot).state
                    &&& final(self)@ == old(self)@.moved_all(ids, old(self)@.lent(ids))
                },
            },
    {
        let ghost before = self@;
        let mut index: usize = 0;
        while index < work.len()
            invariant
                index <= work@.len(),
                self@ == before,
                before.wf(),
                before.first_work_defect(work@, 0) == before.first_work_defect(
                    work@,
                    index as int,
                ),
            decreases work.len() - index,
        {
            match self.check_work(work[index]) {
                Some(error) => {
                    return Err(error);
                },
                None => {},
            }
            if repeats_earlier(work, index) {
                return Err(SchedulerError::StaleWork);
            }
            index += 1;
        }
        let ghost ids = work_slots(work@);
        let ghost targets = before.lent(ids);
        proof {
            lemma_no_work_defect(before, work@, 0);
            assert forall|k: int| 0 <= k < work@.len() implies !#[trigger] repeats_slot(
                work@,
                k,
            ) by {
                assert(before.work_defect(work@[k]) is None);
            }
            lemma_distinct_slots(work@);
            assert forall|i: int|
                #![trigger ids[i]]
                #![trigger targets[i]]
                0 <= i < ids.len() implies {
                &&& before.slots.resolves(ids[i])
                &&& targets[i].id == ids[i]
                &&& targets[i].request == before.slots.slot(ids[i]).request
                &&& fits(targets[i])
                &&& active_kind(kind_of(before.slots.slot(ids[i]).lifecycle))
                &&& !(kind_of(targets[i].lifecycle) is Waiting)
            } by {
                assert(before.work_defect(work@[i]) is None);
                assert(before.queues.of(QueueKind::Runnable).contains(ids[i]));
                lemma_member(before, QueueKind::Runnable, ids[i]);
            }
            lemma_settled_after_moves(before, ids, targets);
        }
        let mut states: Vec<InferenceStateSet> = Vec::new();
        let mut index: usize = 0;
        while index < work.len()
            invariant
                index <= work@.len(),
                before.settled(),
                ids == work_slots(work@),
                targets == before.lent(ids),
                movable(before.slots, ids, targets),
                forall|i: int|
                    0 <= i < work@.len() ==> before.queues.runnable.contains(
                        (#[trigger] work@[i]).slot,
                    ),
                self@ == before.with(
                    moved_all(before.slots, before.queues, ids, targets, index as nat),
                ),
                states@.len() == index,
                forall|i: int|
                    0 <= i < index ==> Some((#[trigger] states@[i])@) == before.slots.slot(
                        work@[i].slot,
                    ).state,
            decreases work.len() - index,
        {
            let id = work[index].slot;
            proof {
                lemma_next_move(before, ids, targets, index as int);
                assert(before.queues.of(QueueKind::Runnable).contains(id));
                lemma_member(before, QueueKind::Runnable, id);
                assert(ids[index as int] == id);
            }
            if let Some(slot) = self.slots.get_mut(id) {
                if let Ok(state) = slot.prepare_submission() {
                    states.push(state);
                }
            }
            self.queues.relocate(id, QueueKind::Runnable, QueueKind::Prepared);
            index += 1;
        }
        Ok(states)
    }

    /// Whether a submission owns the state of any request.
    pub(crate) fn owns_any(&self, submission: BackendSubmissionId) -> (r: bool)
        requires
            self@.wf(),
        ensures
            r == (self@.owned(submission).len() > 0),
    {
        self.owned_slots(submission).len() > 0
    }

    fn owned_slots(&self, submission: BackendSubmissionId) -> (r: Vec<RequestSlotId>)
        requires
            self@.wf(),
        ensures
            r@ == self@.owned(submission),
    {
        let mut owned: Vec<RequestSlotId> = Vec::new();
        let mut index: usize = 0;
        assert(owned@ =~= self@.owned_among(submission, 0));
        while index < self.queues.in_flight.len()
            invariant
                index <= self@.queues.in_flight.len(),
                self@.wf(),
                owned@ == self@.owned_among(submission, index as int),
            decreases self.queues.in_flight.len() - index,
        {
            let id = self.queues.in_flight[index];
            proof {
                assert(self@.queues.of(QueueKind::InFlight).contains(id));
                lemma_member(self@, QueueKind::InFlight, id);
            }
            if let Some(slot) = self.slots.get(id) {
                if slot.lifecycle().submission() == Some(submission) {
                    owned.push(id);
                }
            }
            index += 1;
        }
        owned
    }

    fn check_prepared(&self, work: &[ScheduledWork]) -> (r: bool)
        requires
            self@.wf(),
        ensures
            r == self@.all_prepared(work@),
    {
        let mut index: usize = 0;
        while index < work.len()
            invariant
                index <= work@.len(),
                self@.wf(),
                forall|i: int|
                    0 <= i < index ==> self@.queues.prepared.contains((#[trigger] work@[i]).slot)
                        && self@.slots.slot(work@[i].slot).request.id == work@[i].request,
                forall|i: int| 0 <= i < index ==> !#[trigger] repeats_slot(work@, i),
            decreases work.len() - index,
        {
            if !queue_contains(&self.queues.prepared, work[index].slot) {
                return false;
            }
            proof {
                assert(self@.queues.of(QueueKind::Prepared).contains(work@[index as int].slot));
                lemma_member(self@, QueueKind::Prepared, work@[index as int].slot);
            }
            match self.slots.get(work[index].slot) {
                Some(slot) => {
                    if slot.request().id() != work[index].request {
                        return false;
                    }
                },
                None => {
                    return false;
                },
            }
            if repeats_earlier(work, index) {
                return false;
            }
            index += 1;
        }
        true
    }

    /// Associate prepared work with the backend submission that now owns its state.
    ///
    /// # Errors
    /// Returns [`SchedulerError::DuplicateSubmission`] while the identity is in flight, or
    /// [`SchedulerError::StaleWork`] unless all of the work is prepared; nothing is changed
    /// then.
    pub fn confirm_submission(
        &mut self,
        work: Vec<ScheduledWork>,
        submission: BackendSubmissionId,
    ) -> (r: Result<(), SchedulerError>)
        requires
            old(self)@.wf(),
        ensures
            final(self)@.wf(),
            old(self)@.owned(submission).len() > 0 ==> r == Err::<(), SchedulerError>(
                SchedulerError::DuplicateSubmission(submission),
            ) && final(self)@ == old(self)@,
            old(self)@.owned(submission).len() == 0 && !old(self)@.all_prepared(work@) ==> r
                == Err::<(), SchedulerError>(SchedulerError::StaleWork) && final(self)@ == old(self)@,
            old(self)@.owned(submission).len() == 0 && old(self)@.all_prepared(work@) ==> r is Ok
                && final(self)@ == old(self)@.moved_all(
                work_slots(work@),
                old(self)@.flying(work_slots(work@), submission),
            ),
    {
        let ghost before = self@;
        if self.owns_any(submission) {
            return Err(SchedulerError::DuplicateSubmission(submission));
        }
        if !self.check_prepared(work.as_slice()) {
            return Err(SchedulerError::StaleWork);
        }
        let ghost ids = work_slots(work@);
        let ghost targets = before.flying(ids, submission);
        proof {
            lemma_distinct_slots(work@);
            assert forall|i: int|
                #![trigger ids[i]]
                #![trigger targets[i]]
                0 <= i < ids.len() implies {
                &&& before.slots.resolves(ids[i])
                &&& targets[i].id == ids[i]
                &&& targets[i].request == before.slots.slot(ids[i]).request
                &&& fits(targets[i])
                &&& active_kind(kind_of(before.slots.slot(ids[i]).lifecycle))
                &&& !(kind_of(targets[i].lifecycle) is Waiting)
            } by {
                assert(before.queues.prepared.contains(work@[i].slot));
                assert(before.queues.of(QueueKind::Prepared).contains(ids[i]));
                lemma_member(before, QueueKind::Prepared, ids[i]);
            }
            lemma_settled_after_moves(before, ids, targets);
        }
        let mut index: usize = 0;
        while index < work.len()
            invariant
                index <= work@.len(),
                before.settled(),
                ids == work_slots(work@),
                targets == before.flying(ids, submission),
                movable(before.slots, ids, targets),
                forall|i: int|
                    0 <= i < work@.len() ==> before.queues.prepared.contains(
                        (#[trigger] work@[i]).slot,
                    ),
                self@ == before.with(
                    moved_all(before.slots, before.queues, ids, targets, index as nat),
                ),
            decreases work.len() - index,
        {
            let id = work[index].slot;
            proof {
                lemma_next_move(before, ids, targets, index as int);
                assert(before.queues.of(QueueKind::Prepared).contains(id));
                lemma_member(before, QueueKind::Prepared, id);
                assert(ids[index as int] == id);
            }
            if let Some(slot) = self.slots.get_mut(id) {
                let _ = slot.confirm_submission(submission);
            }
            self.queues.relocate(id, QueueKind::Prepared, QueueKind::InFlight);
            index += 1;
        }
        Ok(())
    }

    /// Restore the state of prepared work whose submission was refused, and end its
    /// requests.
    ///
    /// # Errors
    /// Returns [`SchedulerError::StaleWork`] unless all of the work is prepared, or
    /// [`SchedulerError::StateCountMismatch`] unless there is one state for each; nothing is
    /// changed then.
    pub fn fail_prepared(&mut self, work: &[ScheduledWork], states: Vec<InferenceStateSet>) -> (r:
        Result<(), SchedulerError>)
        requires
            old(self)@.wf(),
        ensures
            final(self)@.wf(),
            !old(self)@.all_prepared(work@) ==> r == Err::<(), SchedulerError>(
                SchedulerError::StaleWork,
            ) && final(self)@ == old(self)@,
            old(self)@.all_prepared(work@) && states@.len() != work@.len() ==> r == Err::<
                (),
                SchedulerError,
            >(SchedulerError::StateCountMismatch) && final(self)@ == old(self)@,
            old(self)@.all_prepared(work@) && states@.len() == work@.len() ==> r is Ok && final(self)@ == old(self)@.moved_all(
                work_slots(work@),
                old(self)@.failed(work_slots(work@), held(states@)),
            ).filled(),
    {
        let ghost before = self@;
        if !self.check_prepared(work) {
            return Err(SchedulerError::StaleWork);
        }
        if states.len() != work.len() {
            return Err(SchedulerError::StateCountMismatch);
        }
        let ghost ids = work_slots(work@);
        let ghost given = states@;
        let ghost targets = before.failed(ids, held(given));
        proof {
            lemma_distinct_slots(work@);
            assert forall|i: int|
                #![trigger ids[i]]
                #![trigger targets[i]]
                0 <= i < ids.len() implies {
                &&& before.slots.resolves(ids[i])
                &&& targets[i].id == ids[i]
                &&& targets[i].request == before.slots.slot(ids[i]).request
                &&& fits(targets[i])
                &&& active_kind(kind_of(before.slots.slot(ids[i]).lifecycle))
                &&& !(kind_of(targets[i].lifecycle) is Waiting)
            } by {
                assert(before.queues.prepared.contains(work@[i].slot));
                assert(before.queues.of(QueueKind::Prepared).contains(ids[i]));
                lemma_member(before, QueueKind::Prepared, ids[i]);
            }
            lemma_settled_after_moves(before, ids, targets);
        }
        let mut remaining = states;
        let mut index: usize = 0;
        while index < work.len()
            invariant
                index <= work@.len(),
                before.settled(),
                ids == work_slots(work@),
                given.len() == work@.len(),
                remaining@ == given.skip(index as int),
                targets == before.failed(ids, held(given)),
                movable(before.slots, ids, targets),
                forall|i: int|
                    0 <= i < work@.len() ==> before.queues.prepared.contains(
                        (#[trigger] work@[i]).slot,
                    ),
                self@ == before.with(
                    moved_all(before.slots, before.queues, ids, targets, index as nat),
                ),
            decreases work.len() - index,
        {
            let id = work[index].slot;
            proof {
                lemma_next_move(before, ids, targets, index as int);
                assert(before.queues.of(QueueKind::Prepared).contains(id));
                lemma_member(before, QueueKind::Prepared, id);
                assert(ids[index as int] == id);
                assert(held(given)[index as int] == given[index as int]@);
            }
            let state = remaining.remove(0);
            assert(remaining@ =~= given.skip(index + 1));
            if let Some(slot) = self.slots.get_mut(id) {
                let _ = slot.fail_prepared(state);
            }
            self.queues.relocate(id, QueueKind::Prepared, QueueKind::Terminal);
            index += 1;
        }
        self.fill_runnable();
        Ok(())
    }

    /// Submit one piece of selected work at once: its state leaves the slot for the backend
    /// submission that owns it from now on.
    ///
    /// # Errors
    /// Returns an error for a submission identity that is in flight or for stale work;
    /// nothing is changed then.
    pub fn begin_submission(&mut self, work: ScheduledWork, submission: BackendSubmissionId) -> (r:
        Result<InferenceStateSet, SchedulerError>)
        requires
            old(self)@.wf(),
        ensures
            final(self)@.wf(),
            old(self)@.owned(submission).len() > 0 ==> r == Err::<InferenceStateSet, SchedulerError>(
                SchedulerError::DuplicateSubmission(submission),
            ) && final(self)@ == old(self)@,
            old(self)@.owned(submission).len() == 0 ==> match old(self)@.work_defect(work) {
                Some(error) => r == Err::<InferenceStateSet, SchedulerError>(error) && final(self)@
                    == old(self)@,
                None => {
                    &&& r is Ok
                    &&& Some(r->Ok_0@) == old(self)@.slots.slot(work.slot).state
                    &&& final(self)@ == old(self)@.moved(
                        work.slot,
                        old(self)@.slots.slot(work.slot).lent(
                            RequestLifecycle::InFlight(submission),
                        ),
                    )
                },
            },
    {
        let ghost before = self@;
        if self.owns_any(submission) {
            return Err(SchedulerError::DuplicateSubmission(submission));
        }
        match self.check_work(work) {
            Some(error) => {
                return Err(error);
            },
            None => {},
        }
        let id = work.slot;
        let ghost target = before.slots.slot(id).lent(RequestLifecycle::InFlight(submission));
        proof {
            assert(before.queues.of(QueueKind::Runnable).contains(id));
            lemma_member(before, QueueKind::Runnable, id);
            lemma_consistent_kind(before.slots, before.queues, QueueKind::Runnable);
            lemma_moved(before.slots, before.queues, id, target);
            lemma_with_slot(before.slots, id, target);
        }
        let mut taken: Option<InferenceStateSet> = None;
        if let Some(slot) = self.slots.get_mut(id) {
            if let Ok(state) = slot.prepare_submission() {
                taken = Some(state);
                let _ = slot.confirm_submission(submission);
            }
        }
        self.queues.relocate(id, QueueKind::Runnable, QueueKind::InFlight);
        assert(self@ =~= before.moved(id, target));
        match taken {
            Some(state) => Ok(state),
            None => Err(SchedulerError::StaleWork),
        }
    }

    /// Apply a backend completion. Each request returns to the runnable queue, or ends when
    /// it was cancelled meanwhile or has used up its output budget; free places go to the
    /// oldest waiting requests. Either all of the completion is applied and the states are
    /// taken, or none of it is and the states are left.
    ///
    /// # Errors
    /// Returns an error when the submission is unknown, when events or states do not match
    /// its requests, or when completed progress is invalid.
    pub fn complete_submission(
        &mut self,
        submission: BackendSubmissionId,
        event: &ExecutionBatchEvent,
        states: &mut Vec<InferenceStateSet>,
    ) -> (r: Result<(), SchedulerError>)
        requires
            old(self)@.wf(),
        ensures
            final(self)@.wf(),
            match old(self)@.completion_defect(submission, event@, old(states)@.len()) {
                Some(error) => {
                    &&& r == Err::<(), SchedulerError>(error)
                    &&& final(self)@ == old(self)@
                    &&& final(states)@ == old(states)@
                },
                None => {
                    let ids = old(self)@.owned(submission);
                    &&& r is Ok
                    &&& final(states)@.len() == 0
                    &&& final(self)@ == old(self)@.moved_all(
                        ids,
                        old(self)@.completed(ids, event@, held(old(states)@)),
                    ).filled()
                },
            },
    {
        let ghost before = self@;
        let ghost given = states@;
        let owned = self.owned_slots(submission);
        let events = event.events();
        if owned.len() == 0 {
            return Err(SchedulerError::UnknownSubmission(submission));
        }
        if events.len() != owned.len() {
            return Err(SchedulerError::CompletionRequestMismatch);
        }
        if states.len() != owned.len() {
            return Err(SchedulerError::StateCountMismatch);
        }
        let ghost ids = owned@;
        proof {
            lemma_owned_members(before, submission);
        }
        let mut index: usize = 0;
        while index < owned.len()
            invariant
                index <= owned@.len(),
                owned@ == ids,
                ids == before.owned(submission),
                events@.len() == ids.len(),
                event_views(events@) == event@,
                self@ == before,
                before.wf(),
                states@ == given,
                given.len() == ids.len(),
                ids.len() > 0,
                forall|i: int|
                    0 <= i < ids.len() ==> belongs(
                        before.slots,
                        #[trigger] ids[i],
                        QueueKind::InFlight,
                    ),
                before.first_event_defect(ids, event@, 0) == before.first_event_defect(
                    ids,
                    event@,
                    index as int,
                ),
            decreases owned.len() - index,
        {
            assert(belongs(before.slots, ids[index as int], QueueKind::InFlight));
            assert(event@[index as int] == events@[index as int]@);
            if let Some(slot) = self.slots.get(owned[index]) {
                match check_event(slot, &events[index]) {
                    Some(error) => {
                        return Err(error);
                    },
                    None => {},
                }
            }
            index += 1;
        }
        let ghost targets = before.completed(ids, event@, held(given));
        proof {
            lemma_no_event_defect(before, ids, event@, 0);
            assert forall|i: int|
                #![trigger ids[i]]
                #![trigger targets[i]]
                0 <= i < ids.len() implies {
                &&& before.slots.resolves(ids[i])
                &&& targets[i].id == ids[i]
                &&& targets[i].request == before.slots.slot(ids[i]).request
                &&& fits(targets[i])
                &&& active_kind(kind_of(before.slots.slot(ids[i]).lifecycle))
                &&& !(kind_of(targets[i].lifecycle) is Waiting)
            } by {
                assert(belongs(before.slots, before.owned(submission)[i], QueueKind::InFlight));
                lemma_completed_slot(before.slots.slot(ids[i]), event@[i], held(given)[i]);
            }
            lemma_settled_after_moves(before, ids, targets);
        }
        let mut index: usize = 0;
        while index < owned.len()
            invariant
                index <= owned@.len(),
                owned@ == ids,
                events@.len() == ids.len(),
                event_views(events@) == event@,
                before.settled(),
                given.len() == ids.len(),
                states@ == given.skip(index as int),
                targets == before.completed(ids, event@, held(given)),
                movable(before.slots, ids, targets),
                forall|i: int|
                    #![trigger ids[i]]
                    0 <= i < ids.len() ==> belongs(before.slots, ids[i], QueueKind::InFlight)
                        && before.slots.slot(ids[i]).lifecycle.owner() == Some(submission)
                        && event_defect(before.slots.slot(ids[i]), event@[i]) is None,
                self@ == before.with(
                    moved_all(before.slots, before.queues, ids, targets, index as nat),
                ),
            decreases owned.len() - index,
        {
            let id = owned[index];
            proof {
                lemma_next_move(before, ids, targets, index as int);
                assert(belongs(before.slots, ids[index as int], QueueKind::InFlight));
                assert(event@[index as int] == events@[index as int]@);
                assert(held(given)[index as int] == given[index as int]@);
                lemma_completed_slot(
                    before.slots.slot(id),
                    event@[index as int],
                    held(given)[index as int],
                );
            }
            let state = states.remove(0);
            assert(states@ =~= given.skip(index + 1));
            let completed = events[index];
            let mut ended: bool = true;
            if let Some(slot) = self.slots.get_mut(id) {
                ended = apply_event(slot, submission, completed, state);
            }
            if ended {
                self.queues.relocate(id, QueueKind::InFlight, QueueKind::Terminal);
            } else {
                self.queues.relocate(id, QueueKind::InFlight, QueueKind::Runnable);
            }
            index += 1;
        }
        assert(states@ =~= Seq::empty());
        self.fill_runnable();
        Ok(())
    }

    /// End the requests of a submission after the backend reported its failure and gave up
    /// its ownership; each gets its state back.
    ///
    /// # Errors
    /// Returns [`SchedulerError::UnknownSubmission`], or
    /// [`SchedulerError::StateCountMismatch`] unless there is one state for each request.
    pub fn fail_submission(
        &mut self,
        submission: BackendSubmissionId,
        states: Vec<InferenceStateSet>,
    ) -> (r: Result<(), SchedulerError>)
        requires
            old(self)@.wf(),
        ensures
            final(self)@.wf(),
            old(self)@.owned(submission).len() == 0 ==> r == Err::<(), SchedulerError>(
                SchedulerError::UnknownSubmission(submission),
            ) && final(self)@ == old(self)@,
            old(self)@.owned(submission).len() > 0 && states@.len() != old(self)@.owned(
                submission,
            ).len() ==> r == Err::<(), SchedulerError>(SchedulerError::StateCountMismatch) && final(self)@ == old(self)@,
            old(self)@.owned(submission).len() > 0 && states@.len() == old(self)@.owned(
                submission,
            ).len() ==> r is Ok && final(self)@ == old(self)@.moved_all(
                old(self)@.owned(submission),
                old(self)@.failed(old(self)@.owned(submission), held(states@)),
            ).filled(),
    {
        let ghost before = self@;
        let ghost given = states@;
        let owned = self.owned_slots(submission);
        if owned.len() == 0 {
            return Err(SchedulerError::UnknownSubmission(submission));
        }
        if states.len() != owned.len() {
            return Err(SchedulerError::StateCountMismatch);
        }
        let ghost ids = owned@;
        let ghost targets = before.failed(ids, held(given));
        proof {
            lemma_owned_members(before, submission);
            assert forall|i: int|
                #![trigger ids[i]]
                #![trigger targets[i]]
                0 <= i < ids.len() implies {
                &&& before.slots.resolves(ids[i])
                &&& targets[i].id == ids[i]
                &&& targets[i].request == before.slots.slot(ids[i]).request
                &&& fits(targets[i])
                &&& active_kind(kind_of(before.slots.slot(ids[i]).lifecycle))
                &&& !(kind_of(targets[i].lifecycle) is Waiting)
            } by {
                assert(belongs(before.slots, before.owned(submission)[i], QueueKind::InFlight));
            }
            lemma_settled_after_moves(before, ids, targets);
        }
        let mut remaining = states;
        let mut index: usize = 0;
        while index < owned.len()
            invariant
                index <= owned@.len(),
                owned@ == ids,
                before.settled(),
                given.len() == ids.len(),
                remaining@ == given.skip(index as int),
                targets == before.failed(ids, held(given)),
                movable(before.slots, ids, targets),
                forall|i: int|
                    #![trigger ids[i]]
                    0 <= i < ids.len() ==> belongs(before.slots, ids[i], QueueKind::InFlight)
                        && before.slots.slot(ids[i]).lifecycle.owner() == Some(submission),
                self@ == before.with(
                    moved_all(before.slots, before.queues, ids, targets, index as nat),
                ),
            decreases owned.len() - index,
        {
            let id = owned[index];
            proof {
                lemma_next_move(before, ids, targets, index as int);
                assert(belongs(before.slots, ids[index as int], QueueKind::InFlight));
                assert(held(given)[index as int] == given[index as int]@);
            }
            let state = remaining.remove(0);
            assert(remaining@ =~= given.skip(index + 1));
            if let Some(slot) = self.slots.get_mut(id) {
                let _ = slot.fail_submission(submission, state);
            }
            self.queues.relocate(id, QueueKind::InFlight, QueueKind::Terminal);
            index += 1;
        }
        self.fill_runnable();
        Ok(())
    }

    /// Request cancellation by semantic request identity. A request that no submission owns
    /// ends at once; one in flight ends with its submission.
    ///
    /// # Errors
    /// Returns an error for unknown, transiently submitting or ended requests.
    pub fn cancel(&mut self, request: RequestId) -> (r: Result<(), SchedulerError>)
        requires
            old(self)@.wf(),
        ensures
            final(self)@.wf(),
            match old(self)@.cancellation_defect(request) {
                Some(error) => r == Err::<(), SchedulerError>(error) && final(self)@ == old(self)@,
                None => r is Ok && final(self)@ == old(self)@.cancelled(request),
            },
    {
        let ghost before = self@;
        let id = match self.slot_for_request(request) {
            Some(id) => id,
            None => {
                return Err(SchedulerError::UnknownRequest(request));
            },
        };
        proof {
            assert(before.queues.of(kind_of(before.slots.slot(id).lifecycle)).contains(id));
            lemma_member(before, kind_of(before.slots.slot(id).lifecycle), id);
            lemma_consistent_kind(
                before.slots,
                before.queues,
                kind_of(before.slots.slot(id).lifecycle),
            );
        }
        let lifecycle = match self.slots.get(id) {
            Some(slot) => slot.lifecycle(),
            None => {
                return Err(SchedulerError::UnknownRequest(request));
            },
        };
        let from = match lifecycle {
            RequestLifecycle::Waiting => QueueKind::Waiting,
            RequestLifecycle::Runnable => QueueKind::Runnable,
            RequestLifecycle::InFlight(_) | RequestLifecycle::Cancelling(_) => {
                let ghost target = before.slots.slot(id).entered(
                    RequestLifecycle::Cancelling(before.slots.slot(id).lifecycle.owner()->Some_0),
                );
                if let Some(slot) = self.slots.get_mut(id) {
                    let _ = slot.request_cancel();
                }
                proof {
                    lemma_moved(before.slots, before.queues, id, target);
                    lemma_with_slot(before.slots, id, target);
                    assert(self@ =~= before.moved(id, target));
                }
                return Ok(());
            },
            _ => {
                return Err(SchedulerError::Slot(RequestSlotError::InvalidTransition));
            },
        };
        let ghost target = before.slots.slot(id).entered(RequestLifecycle::Cancelled);
        if let Some(slot) = self.slots.get_mut(id) {
            let _ = slot.request_cancel();
        }
        self.queues.relocate(id, from, QueueKind::Terminal);
        proof {
            lemma_settled_after_move(before, id, target);
            assert(self@ =~= before.moved(id, target));
        }
        self.fill_runnable();
        Ok(())
    }

    /// Mark a runnable request complete for a semantic stop condition, such as an end token
    /// before its maximum output budget.
    ///
    /// # Errors
    /// Returns an error unless the request is currently runnable.
    pub fn finish(&mut self, request: RequestId) -> (r: Result<(), SchedulerError>)
        requires
            old(self)@.wf(),
        ensures
            final(self)@.wf(),
            match old(self)@.finish_defect(request) {
                Some(error) => r == Err::<(), SchedulerError>(error) && final(self)@ == old(self)@,
                None => r is Ok && final(self)@ == old(self)@.finished(request),
            },
    {
        let ghost before = self@;
        let id = match self.slot_for_request(request) {
            Some(id) => id,
            None => {
                return Err(SchedulerError::UnknownRequest(request));
            },
        };
        if !queue_contains(&self.queues.runnable, id) {
            return Err(SchedulerError::InvalidLifecycle);
        }
        let ghost target = before.slots.slot(id).entered(RequestLifecycle::Completed);
        proof {
            assert(before.queues.of(QueueKind::Runnable).contains(id));
            lemma_member(before, QueueKind::Runnable, id);
            lemma_settled_after_move(before, id, target);
        }
        if let Some(slot) = self.slots.get_mut(id) {
            let _ = slot.mark_completed();
        }
        self.queues.relocate(id, QueueKind::Runnable, QueueKind::Terminal);
        assert(self@ =~= before.moved(id, target));
        self.fill_runnable();
        Ok(())
    }

    /// The state of the ended request that is reclaimed next.
    #[must_use]
    pub fn terminal_state(&self) -> (r: Option<&InferenceStateSet>)
        requires
            self@.wf(),
        ensures
            self@.queues.terminal.len() == 0 ==> r is None,
            self@.queues.terminal.len() > 0 ==> r is Some && Some(r->Some_0@) == self@.slots.slot(
                self@.queues.terminal[0],
            ).state,
    {
        if self.queues.terminal.len() == 0 {
            return None;
        }
        proof {
            assert(self@.queues.of(QueueKind::Terminal).contains(self@.queues.terminal[0]));
            lemma_member(self@, QueueKind::Terminal, self@.queues.terminal[0]);
        }
        match self.slots.get(self.queues.terminal[0]) {
            Some(slot) => slot.state(),
            None => None,
        }
    }

    /// Reclaim the oldest ended request. Ended requests remain resident until this is
    /// called, so that destruction of their state can be handled explicitly.
    pub fn reclaim_next(&mut self) -> (r: Option<ActiveRequestSlot>)
        requires
            old(self)@.wf(),
        ensures
            final(self)@.wf(),
            old(self)@.queues.terminal.len() == 0 ==> r is None && final(self)@ == old(self)@,
            old(self)@.queues.terminal.len() > 0 ==> {
                &&& r is Some
                &&& r->Some_0@ == old(self)@.slots.slot(old(self)@.queues.terminal[0])
                &&& r->Some_0@.lifecycle.terminal()
                &&& r->Some_0@.state is Some
                &&& final(self)@ == old(self)@.reclaimed()
            },
    {
        if self.queues.terminal.len() == 0 {
            return None;
        }
        let ghost before = self@;
        proof {
            lemma_reclaimed(before);
            assert(before.queues.of(QueueKind::Terminal).contains(before.queues.terminal[0]));
            lemma_member(before, QueueKind::Terminal, before.queues.terminal[0]);
        }
        let id = self.queues.terminal.remove(0);
        match self.slots.remove(id) {
            Ok(slot) => {
                assert(self@ =~= before.reclaimed());
                Some(slot)
            },
            Err(_) => None,
        }
    }

    /// Give free places to waiting requests, oldest first.
    fn fill_runnable(&mut self)
        requires
            old(self)@.settled(),
        ensures
            final(self)@ == old(self)@.filled(),
            final(self)@.wf(),
    {
        let ghost before = self@;
        proof {
            lemma_filled(before);
        }
        while self.queues.waiting.len() > 0 && self.queues.active()
            < self.config.max_active_requests()
            invariant
                self@.settled(),
                self@.filled() == before.filled(),
            decreases self.queues.waiting.len(),
        {
            let ghost current = self@;
            proof {
                lemma_promoted(current);
                assert(current.queues.of(QueueKind::Waiting).contains(current.queues.waiting[0]));
                lemma_member(current, QueueKind::Waiting, current.queues.waiting[0]);
            }
            let id = self.queues.waiting.remove(0);
            if let Some(slot) = self.slots.get_mut(id) {
                let _ = slot.make_runnable();
            }
            self.queues.runnable.push(id);
            assert(self@ =~= current.promoted());
        }
    }
}

/// Apply one completed step to a request; whether the request has ended.
fn apply_event(
    slot: &mut ActiveRequestSlot,
    submission: BackendSubmissionId,
    event: ExecutionEvent,
    state: InferenceStateSet,
) -> (r: bool)
    requires
        old(slot)@.lifecycle.owner() == Some(submission),
        old(slot)@.state is None,
        event_defect(old(slot)@, event@) is None,
    ensures
        final(slot)@ == completed_slot(old(slot)@, event@, state@),
        r == final(slot)@.lifecycle.terminal(),
{
    let counts: bool = match slot.lifecycle() {
        RequestLifecycle::InFlight(_) => true,
        _ => false,
    };
    let _ = slot.complete_step(submission, event.phase(), event.token_count(), state);
    if !counts {
        return true;
    }
    if event.phase() == ExecutionPhase::Prefill && event.output_token().is_some() {
        let _ = slot.record_output();
    }
    if slot.progress().generated_tokens >= slot.request().semantics().max_output_tokens() {
        let _ = slot.mark_completed();
        return true;
    }
    false
}

/// The cells of the table decide what the queues may hold.
proof fn lemma_same_cells(before: SchedulerView, after: SchedulerView)
    requires
        before.wf(),
        after.slots.wf(),
        after.slots.cells == before.slots.cells,
        after.queues == before.queues,
        after.config == before.config,
    ensures
        after.wf(),
{
    assert forall|id: RequestSlotId| after.slots.resolves(id) == #[trigger] before.slots.resolves(
        id,
    ) by {}
    assert forall|kind: QueueKind| #[trigger]
        queue_wf(after.slots, after.queues.of(kind), kind) by {
        lemma_consistent_kind(before.slots, before.queues, kind);
        let queue = before.queues.of(kind);
        assert forall|i: int| 0 <= i < queue.len() implies belongs(
            after.slots,
            #[trigger] queue[i],
            kind,
        ) by {
            assert(belongs(before.slots, queue[i], kind));
        }
    }
    assert(queue_wf(after.slots, after.queues.of(QueueKind::Waiting), QueueKind::Waiting));
    assert(queue_wf(after.slots, after.queues.of(QueueKind::Runnable), QueueKind::Runnable));
    assert(queue_wf(after.slots, after.queues.of(QueueKind::Prepared), QueueKind::Prepared));
    assert(queue_wf(after.slots, after.queues.of(QueueKind::InFlight), QueueKind::InFlight));
    assert(queue_wf(after.slots, after.queues.of(QueueKind::Terminal), QueueKind::Terminal));
    assert forall|id: RequestSlotId| #[trigger]
        after.slots.resolves(id) implies after.queues.of(
        kind_of(after.slots.slot(id).lifecycle),
    ).contains(id) by {
        assert(before.slots.resolves(id));
    }
}

#[derive(Clone, Copy, Debug, Hash, PartialEq, Eq, Structural)]
pub enum SchedulerError {
    InvalidConfig,
    Backpressure,
    DuplicateRequest(RequestId),
    UnknownRequest(RequestId),
    UnknownSubmission(BackendSubmissionId),
    DuplicateSubmission(BackendSubmissionId),
    CompletionRequestMismatch,
    /// There is not one state for each request.
    StateCountMismatch,
    InvalidLifecycle,
    StaleWork,
    PositionOverflow,
    Slot(RequestSlotError),
}

} // verus!
