//! What admission, completion, cancellation and reclamation do to resident requests.

use crate::engine::backend::BackendSubmissionId;
use crate::engine::execution::{ExecutionEventView, ExecutionPhase};
use crate::engine::ownership::lemma_owned_contains;
use crate::engine::queues::{
    active_kind, belongs, fits, kind_of, lemma_consistent_kind, lemma_index, lemma_moved_all,
    movable, moved_all, QueueKind, QueuesView,
};
use crate::engine::request::{RequestId, RequestSpecView};
use crate::engine::scheduler::{
    completed_slot, event_defect, lemma_completed_slot, lemma_filled, lemma_filled_keeps,
    lemma_member, lemma_no_event_defect, lemma_owned_members, lemma_settled_after_move,
    lemma_settled_after_moves, lemma_slot_for, position_for, ScheduledWork, SchedulerConfigView,
    SchedulerError, SchedulerView,
};
use crate::engine::scheduler_laws::law_oldest_waiters_are_promoted;
use crate::engine::serving::{
    lemma_inserted, lemma_removed, lemma_with_slot, occupied_among, CellView, RequestLifecycle,
    RequestSlotError, RequestSlotId, RequestSlotsView, SlotView,
};
use crate::engine::state::{position_of, StateHandle};
use vstd::prelude::*;

verus! {

/// Which queue a request stands in, by what it is doing, and which of them count as active.
pub proof fn law_queues_of_lifecycles(lifecycle: RequestLifecycle)
    ensures
        kind_of(lifecycle) is Waiting <==> lifecycle is Waiting,
        kind_of(lifecycle) is Runnable <==> lifecycle is Runnable,
        kind_of(lifecycle) is Prepared <==> lifecycle is Submitting,
        kind_of(lifecycle) is InFlight <==> lifecycle is InFlight || lifecycle is Cancelling,
        kind_of(lifecycle) is Terminal <==> lifecycle is Completed || lifecycle is Cancelled
            || lifecycle is Failed,
        lifecycle.terminal() <==> lifecycle is Completed || lifecycle is Cancelled
            || lifecycle is Failed,
        active_kind(kind_of(lifecycle)) <==> !(lifecycle is Waiting) && !lifecycle.terminal(),
        lifecycle.owner() is Some <==> lifecycle is InFlight || lifecycle is Cancelling,
        lifecycle matches RequestLifecycle::InFlight(submission) ==> lifecycle.owner() == Some(
            submission,
        ),
        lifecycle matches RequestLifecycle::Cancelling(submission) ==> lifecycle.owner() == Some(
            submission,
        ),
{
}

/// What a change of lifecycle does to a slot: lending takes the state out, restoring puts one
/// in, and entering leaves it; nothing else changes.
pub proof fn law_slots_keep_their_request(
    slot: SlotView,
    lifecycle: RequestLifecycle,
    state: Seq<StateHandle>,
)
    ensures
        slot.entered(lifecycle).lifecycle == lifecycle,
        slot.entered(lifecycle).state == slot.state,
        slot.entered(lifecycle).progress == slot.progress,
        slot.entered(lifecycle).request == slot.request,
        slot.entered(lifecycle).id == slot.id,
        slot.lent(lifecycle).lifecycle == lifecycle,
        slot.lent(lifecycle).state is None,
        slot.lent(lifecycle).progress == slot.progress,
        slot.lent(lifecycle).request == slot.request,
        slot.lent(lifecycle).id == slot.id,
        slot.restored(lifecycle, state).lifecycle == lifecycle,
        slot.restored(lifecycle, state).state == Some(state),
        slot.restored(lifecycle, state).progress == slot.progress,
        slot.restored(lifecycle, state).request == slot.request,
        slot.restored(lifecycle, state).id == slot.id,
{
}

/// A request that moves between queues leaves the one and stands last in the other; every
/// other request keeps its queue and its place among the others there.
pub proof fn law_moving_requests_stand_last(
    queues: QueuesView,
    id: RequestSlotId,
    from: QueueKind,
    to: QueueKind,
    at: int,
)
    requires
        queues.of(from).no_duplicates(),
        0 <= at < queues.of(from).len(),
        queues.of(from)[at] == id,
    ensures
        from == to ==> queues.moved(id, from, to) == queues,
        from != to ==> {
            let after = queues.moved(id, from, to);
            &&& after.of(to) == queues.of(to).push(id)
            &&& after.of(from) == queues.of(from).remove(at)
            &&& forall|kind: QueueKind|
                kind != from && kind != to ==> #[trigger] after.of(kind) == queues.of(kind)
        },
{
    lemma_index(queues.of(from), at);
}

/// Those of the first `n` requests that move into a queue, in the order in which they move.
pub open spec fn joining(
    ids: Seq<RequestSlotId>,
    targets: Seq<SlotView>,
    kind: QueueKind,
    n: int,
) -> Seq<RequestSlotId>
    decreases n,
{
    if n <= 0 {
        Seq::empty()
    } else if kind_of(targets[n - 1].lifecycle) == kind {
        joining(ids, targets, kind, n - 1).push(ids[n - 1])
    } else {
        joining(ids, targets, kind, n - 1)
    }
}

/// Requests that move into a queue together stand behind those that were there, in the order
/// in which they moved.
pub proof fn law_joining_requests_stand_in_order(
    view: SchedulerView,
    ids: Seq<RequestSlotId>,
    targets: Seq<SlotView>,
    kind: QueueKind,
    n: nat,
)
    requires
        view.settled(),
        movable(view.slots, ids, targets),
        n <= ids.len(),
        forall|i: int|
            0 <= i < ids.len() ==> kind_of(view.slots.slot(#[trigger] ids[i]).lifecycle) != kind,
    ensures
        moved_all(view.slots, view.queues, ids, targets, n).1.of(kind) == view.queues.of(kind)
            + joining(ids, targets, kind, n as int),
    decreases n,
{
    if n > 0 {
        let m = (n - 1) as nat;
        law_joining_requests_stand_in_order(view, ids, targets, kind, m);
        lemma_moved_all(view.slots, view.queues, ids, targets, m);
        let before = moved_all(view.slots, view.queues, ids, targets, m);
        let id = ids[n - 1];
        let from = kind_of(view.slots.slot(id).lifecycle);
        let to = kind_of(targets[n - 1].lifecycle);
        assert(view.slots.resolves(id));
        assert(before.0.resolves(id));
        assert(!ids.take(m as int).contains(id)) by {
            if ids.take(m as int).contains(id) {
                let at = choose|at: int|
                    0 <= at < ids.take(m as int).len() && ids.take(m as int)[at] == id;
                assert(ids[at] == ids[n - 1]);
            }
        }
        assert(before.0.slot(id) == view.slots.slot(id));
        assert(before.1.of(from).contains(id));
        let at = choose|at: int| 0 <= at < before.1.of(from).len() && before.1.of(from)[at] == id;
        lemma_consistent_kind(before.0, before.1, from);
        law_moving_requests_stand_last(before.1, id, from, to, at);
        assert(moved_all(view.slots, view.queues, ids, targets, n).1 == before.1.moved(
            id,
            from,
            to,
        ));
        if to == kind {
            assert((view.queues.of(kind) + joining(ids, targets, kind, m as int)).push(id)
                =~= view.queues.of(kind) + joining(ids, targets, kind, n as int));
        } else {
            assert(before.1.moved(id, from, to).of(kind) == before.1.of(kind));
        }
    } else {
        assert(view.queues.of(kind) + Seq::<RequestSlotId>::empty() =~= view.queues.of(kind));
    }
}

/// A request is refused exactly where it is resident already, where as many are as may be,
/// or where no slot can take it.
pub proof fn law_refused_admissions(view: SchedulerView, request: RequestId)
    ensures
        ({
            let resident = exists|i: int|
                0 <= i < view.slots.cells.len() && (#[trigger] view.slots.cells[i]).value is Some
                    && view.slots.cells[i].value->Some_0.request.id == request;
            let full = view.slots.occupied() >= view.config.max_active_requests
                + view.config.max_queued_requests;
            &&& view.admission_defect(request) == Some(SchedulerError::DuplicateRequest(request))
                <==> resident
            &&& view.admission_defect(request) == Some(SchedulerError::Backpressure) <==> !resident
                && full
            &&& view.admission_defect(request) is None <==> !resident && !full
                && view.slots.can_insert()
        }),
{
}

/// An admitted request gets a slot of its own with nothing done yet; it stands last among the
/// runnable ones where a place is free and last among the waiting ones where none is. No
/// other request changes.
pub proof fn law_admitted_requests_stand_last(
    view: SchedulerView,
    request: RequestSpecView,
    state: Seq<StateHandle>,
    prompt_tokens: u32,
    other: RequestSlotId,
)
    requires
        view.wf(),
        view.admission_defect(request.id) is None,
    ensures
        ({
            let after = view.admitted(request, state, prompt_tokens);
            let id = view.slots.next_id();
            let place = view.queues.active() < view.config.max_active_requests;
            let slot = after.slots.slot(id);
            &&& !view.slots.resolves(id) && after.slots.resolves(id)
            &&& slot.id == id
            &&& slot.request == request
            &&& slot.state == Some(state)
            &&& slot.progress.prompt_tokens == prompt_tokens
            &&& slot.progress.prompt_processed == 0
            &&& slot.progress.decode_processed == 0
            &&& slot.progress.generated_tokens == 0
            &&& place ==> slot.lifecycle is Runnable && after.queues.runnable
                == view.queues.runnable.push(id) && after.queues.waiting == view.queues.waiting
            &&& !place ==> slot.lifecycle is Waiting && after.queues.waiting
                == view.queues.waiting.push(id) && after.queues.runnable == view.queues.runnable
            &&& after.queues.prepared == view.queues.prepared
            &&& after.queues.in_flight == view.queues.in_flight
            &&& after.queues.terminal == view.queues.terminal
            &&& view.slots.resolves(other) ==> after.slots.resolves(other) && after.slots.slot(
                other,
            ) == view.slots.slot(other)
        }),
{
    lemma_inserted(view.slots, request, state, prompt_tokens);
    let id = view.slots.next_id();
    let grown = view.slots.inserted(request, state, prompt_tokens);
    assert(grown.resolves(id));
    let entered = SlotView::admitted(id, request, state, prompt_tokens).entered(
        RequestLifecycle::Runnable,
    );
    lemma_with_slot(grown, id, entered);
    if view.slots.resolves(other) {
        assert(other != id);
        assert(grown.resolves(other) == view.slots.resolves(other));
        assert(grown.slot(other) == view.slots.slot(other));
        let after = view.admitted(request, state, prompt_tokens);
        assert(grown.with_slot(id, entered).resolves(other) == grown.resolves(other));
        assert(grown.with_slot(id, entered).slot(other) == grown.slot(other));
    }
}

/// A completed step counts for a request in flight exactly what was committed: prompt tokens
/// as processed, decoded tokens as read back and as generated, and one generated token for an
/// output of the prompt. The request keeps its identity and gets its state back.
pub proof fn law_completed_steps_are_counted(
    slot: SlotView,
    event: ExecutionEventView,
    state: Seq<StateHandle>,
)
    requires
        slot.lifecycle is InFlight,
        event_defect(slot, event) is None,
    ensures
        ({
            let before = slot.progress;
            let after = completed_slot(slot, event, state).progress;
            let prefilled = if event.phase is Prefill {
                event.token_count as int
            } else {
                0
            };
            let decoded = if event.phase is Decode {
                event.token_count as int
            } else {
                0
            };
            let sampled = if event.phase is Prefill && event.output_token is Some {
                1int
            } else {
                0
            };
            &&& after.prompt_tokens == before.prompt_tokens
            &&& after.prompt_processed == before.prompt_processed + prefilled
            &&& after.decode_processed == before.decode_processed + decoded
            &&& after.generated_tokens == before.generated_tokens + decoded + sampled
            &&& completed_slot(slot, event, state).id == slot.id
            &&& completed_slot(slot, event, state).request == slot.request
            &&& completed_slot(slot, event, state).state == Some(state)
        }),
{
}

/// A request that goes on after a chunk of its prompt continues where the chunk ended: at the
/// position to which its state moved, or, without any state, behind what is processed.
pub proof fn law_next_chunks_follow_on(
    slot: SlotView,
    event: ExecutionEventView,
    state: Seq<StateHandle>,
    position: u32,
)
    requires
        slot.lifecycle is InFlight,
        event_defect(slot, event) is None,
        event.phase is Prefill,
        event.output_token is None,
        completed_slot(slot, event, state).lifecycle is Runnable,
        position_of(state) == Some(position) || (state.len() == 0 && position
            == slot.progress.prompt_processed + event.token_count
            + slot.progress.decode_processed),
    ensures
        position_for(completed_slot(slot, event, state)) == Some(position),
        completed_slot(slot, event, state).progress.prompt_processed
            == slot.progress.prompt_processed + event.token_count,
{
}

/// A completed step is refused exactly where it is of another request, or where a request in
/// flight cannot count it.
pub proof fn law_refused_steps(slot: SlotView, event: ExecutionEventView)
    ensures
        ({
            let progress = slot.progress;
            let overrun = {
                ||| event.phase is Prefill && progress.prompt_processed + event.token_count
                    > progress.prompt_tokens
                ||| event.phase is Decode && (progress.generated_tokens + event.token_count
                    > u32::MAX || progress.decode_processed + event.token_count > u32::MAX)
                ||| event.phase is Prefill && event.output_token is Some
                    && progress.generated_tokens == u32::MAX
            };
            &&& event_defect(slot, event) == Some(SchedulerError::CompletionRequestMismatch)
                <==> slot.request.id != event.request
            &&& event_defect(slot, event) == Some(
                SchedulerError::Slot(RequestSlotError::ProgressOverflow),
            ) <==> slot.request.id == event.request && slot.lifecycle is InFlight && overrun
            &&& event_defect(slot, event) is None <==> slot.request.id == event.request && !(
            slot.lifecycle is InFlight && overrun)
        }),
{
}

/// A submission owns exactly the requests in flight that name it, each once, in the order in
/// which they stand in flight.
pub proof fn law_owned_requests(view: SchedulerView, submission: BackendSubmissionId, id: RequestSlotId)
    requires
        view.settled(),
    ensures
        view.owned(submission).no_duplicates(),
        view.owned(submission).contains(id) <==> view.slots.resolves(id) && view.slots.slot(
            id,
        ).lifecycle.owner() == Some(submission),
        view.owned(submission) == view.queues.in_flight.filter(
            |other: RequestSlotId| view.slots.slot(other).lifecycle.owner() == Some(submission),
        ),
{
    lemma_owned_members(view, submission);
    if view.slots.resolves(id) && view.slots.slot(id).lifecycle.owner() == Some(submission) {
        lemma_owned_contains(view, id, submission);
    }
    if view.owned(submission).contains(id) {
        let at = choose|at: int|
            0 <= at < view.owned(submission).len() && view.owned(submission)[at] == id;
        assert(belongs(view.slots, view.owned(submission)[at], QueueKind::InFlight));
    }
    lemma_owned_filter(view, submission, view.queues.in_flight.len() as int);
    assert(view.queues.in_flight.take(view.queues.in_flight.len() as int)
        =~= view.queues.in_flight);
}

proof fn lemma_owned_filter(view: SchedulerView, submission: BackendSubmissionId, n: int)
    requires
        0 <= n <= view.queues.in_flight.len(),
    ensures
        view.owned_among(submission, n) == view.queues.in_flight.take(n).filter(
            |other: RequestSlotId| view.slots.slot(other).lifecycle.owner() == Some(submission),
        ),
    decreases n,
{
    reveal(Seq::filter);
    if n > 0 {
        lemma_owned_filter(view, submission, n - 1);
        assert(view.queues.in_flight.take(n).drop_last() =~= view.queues.in_flight.take(n - 1));
        assert(view.queues.in_flight.take(n).last() == view.queues.in_flight[n - 1]);
    } else {
        assert(view.queues.in_flight.take(0) =~= Seq::<RequestSlotId>::empty());
    }
}

/// A completion is refused exactly where its submission owns nothing, where it has not one
/// event and one state for each request, or where an event does not apply to its own request.
pub proof fn law_refused_completions(
    view: SchedulerView,
    submission: BackendSubmissionId,
    events: Seq<ExecutionEventView>,
    states: nat,
)
    ensures
        ({
            let ids = view.owned(submission);
            &&& view.completion_defect(submission, events, states) is None <==> ids.len() > 0
                && events.len() == ids.len() && states == ids.len() && forall|i: int|
                0 <= i < ids.len() ==> event_defect(
                    view.slots.slot(#[trigger] ids[i]),
                    events[i],
                ) is None
            &&& view.completion_defect(submission, events, states) == Some(
                SchedulerError::UnknownSubmission(submission),
            ) <==> ids.len() == 0
            &&& ids.len() > 0 && events.len() == ids.len() && states != ids.len()
                ==> view.completion_defect(submission, events, states) == Some(
                SchedulerError::StateCountMismatch,
            )
            &&& ids.len() > 0 && events.len() != ids.len() ==> view.completion_defect(
                submission,
                events,
                states,
            ) == Some(SchedulerError::CompletionRequestMismatch)
        }),
{
    lemma_events(view, view.owned(submission), events, 0);
}

proof fn lemma_events(
    view: SchedulerView,
    ids: Seq<RequestSlotId>,
    events: Seq<ExecutionEventView>,
    from: int,
)
    requires
        0 <= from <= ids.len(),
    ensures
        view.first_event_defect(ids, events, from) is None <==> forall|i: int|
            from <= i < ids.len() ==> event_defect(
                view.slots.slot(#[trigger] ids[i]),
                events[i],
            ) is None,
        !(view.first_event_defect(ids, events, from) matches Some(
            SchedulerError::UnknownSubmission(_),
        )),
    decreases ids.len() - from,
{
    if from < ids.len() {
        lemma_events(view, ids, events, from + 1);
    }
}

/// A completion is applied event by event: each of its requests becomes what its own event
/// and its own state make of it, and no other request that does not wait is touched.
pub proof fn law_completions_reach_their_own_requests(
    view: SchedulerView,
    submission: BackendSubmissionId,
    events: Seq<ExecutionEventView>,
    states: Seq<Seq<StateHandle>>,
    i: int,
    other: RequestSlotId,
)
    requires
        view.wf(),
        view.completion_defect(submission, events, states.len()) is None,
        0 <= i < events.len(),
    ensures
        ({
            let ids = view.owned(submission);
            let after = view.moved_all(ids, view.completed(ids, events, states)).filled();
            &&& ids.len() == events.len() == states.len()
            &&& after.slots.resolves(ids[i])
            &&& after.slots.slot(ids[i]) == completed_slot(
                view.slots.slot(ids[i]),
                events[i],
                states[i],
            )
            &&& view.slots.slot(ids[i]).request.id == events[i].request
            &&& view.slots.resolves(other) && view.slots.slot(other).lifecycle.owner() != Some(
                submission,
            ) && !(view.slots.slot(other).lifecycle is Waiting) ==> after.slots.resolves(other)
                && after.slots.slot(other) == view.slots.slot(other)
            &&& after.wf()
        }),
{
    let ids = view.owned(submission);
    let targets = view.completed(ids, events, states);
    lemma_owned_members(view, submission);
    lemma_no_event_defect(view, ids, events, 0);
    assert forall|k: int|
        #![trigger ids[k]]
        #![trigger targets[k]]
        0 <= k < ids.len() implies {
        &&& view.slots.resolves(ids[k])
        &&& targets[k].id == ids[k]
        &&& targets[k].request == view.slots.slot(ids[k]).request
        &&& fits(targets[k])
        &&& active_kind(kind_of(view.slots.slot(ids[k]).lifecycle))
        &&& !(kind_of(targets[k].lifecycle) is Waiting)
    } by {
        assert(belongs(view.slots, view.owned(submission)[k], QueueKind::InFlight));
        lemma_completed_slot(view.slots.slot(ids[k]), events[k], states[k]);
    }
    assert(movable(view.slots, ids, targets));
    lemma_moved_all(view.slots, view.queues, ids, targets, ids.len());
    lemma_settled_after_moves(view, ids, targets);
    let moved = view.moved_all(ids, targets);
    assert(view.slots.resolves(ids[i]));
    assert(moved.slots.resolves(ids[i]));
    assert(moved.slots.slot(ids[i]) == targets[i]);
    lemma_filled(moved);
    lemma_filled_keeps(moved, ids[i]);
    if view.slots.resolves(other) && view.slots.slot(other).lifecycle.owner() != Some(submission)
        && !(view.slots.slot(other).lifecycle is Waiting) {
        assert(!ids.take(ids.len() as int).contains(other)) by {
            if ids.take(ids.len() as int).contains(other) {
                let at = choose|at: int|
                    0 <= at < ids.take(ids.len() as int).len() && ids.take(ids.len() as int)[at]
                        == other;
                assert(belongs(view.slots, view.owned(submission)[at], QueueKind::InFlight));
                assert(view.owned(submission)[at] == other);
            }
        }
        assert(moved.slots.resolves(other));
        assert(moved.slots.slot(other) == view.slots.slot(other));
        lemma_filled_keeps(moved, other);
    }
}

/// Why selected work can no longer be submitted: its request is not runnable any more, is
/// another one, stands elsewhere or is to do something else, or the work is not of a size
/// that the request and the configuration allow.
pub proof fn law_submittable_work(view: SchedulerView, work: ScheduledWork)
    requires
        view.wf(),
    ensures
        view.work_defect(work) is None ==> {
            let slot = view.slots.slot(work.slot);
            let left = slot.progress.prompt_tokens - slot.progress.prompt_processed;
            &&& view.queues.runnable.contains(work.slot)
            &&& slot.lifecycle is Runnable
            &&& slot.request.id == work.request
            &&& work.phase is Prefill <==> left > 0
            &&& work.phase is Decode <==> left <= 0
            &&& work.phase is Prefill ==> 0 < work.token_count <= left && work.token_count
                <= view.config.prefill_chunk_tokens
            &&& work.phase is Decode ==> work.token_count == 1
            &&& work.requests_output <==> work.phase is Decode || work.token_count == left
            &&& slot.state is Some && position_of(slot.state->Some_0) is Some
                ==> position_of(slot.state->Some_0) == Some(work.state_position)
        },
        !view.queues.runnable.contains(work.slot) ==> view.work_defect(work) == Some(
            SchedulerError::StaleWork,
        ),
        view.work_defect(work) is Some ==> view.work_defect(work) == Some(
            SchedulerError::StaleWork,
        ) || view.work_defect(work) == Some(SchedulerError::PositionOverflow),
{
    if view.queues.runnable.contains(work.slot) {
        assert(view.queues.of(QueueKind::Runnable).contains(work.slot));
        lemma_member(view, QueueKind::Runnable, work.slot);
    }
}

/// Cancelling is refused exactly for a request that is not resident, that is just being
/// submitted, or that has ended.
pub proof fn law_refused_cancellations(view: SchedulerView, id: RequestSlotId, request: RequestId)
    requires
        view.wf(),
    ensures
        view.slots.resolves(id) && view.slots.slot(id).request.id == request ==> {
            let lifecycle = view.slots.slot(id).lifecycle;
            view.cancellation_defect(request) is Some <==> lifecycle is Submitting
                || lifecycle is Completed || lifecycle is Cancelled || lifecycle is Failed
        },
        !view.slots.has_request(request) ==> view.cancellation_defect(request) == Some(
            SchedulerError::UnknownRequest(request),
        ),
{
    if view.slots.resolves(id) {
        lemma_slot_for(view, id);
    }
}

/// A waiting or runnable request that is cancelled ends as cancelled at once: it keeps its
/// state and its progress, and stands last among the ended ones.
pub proof fn law_cancellation_ends_idle_requests(view: SchedulerView, id: RequestSlotId)
    requires
        view.wf(),
        view.slots.resolves(id),
        view.slots.slot(id).lifecycle is Waiting || view.slots.slot(id).lifecycle is Runnable,
    ensures
        ({
            let slot = view.slots.slot(id);
            let after = view.cancelled(slot.request.id);
            &&& after.wf()
            &&& after.slots.resolves(id)
            &&& after.slots.slot(id).lifecycle is Cancelled
            &&& after.slots.slot(id).state == slot.state
            &&& after.slots.slot(id).progress == slot.progress
            &&& after.queues.terminal == view.queues.terminal.push(id)
            &&& after.queues.prepared == view.queues.prepared
            &&& after.queues.in_flight == view.queues.in_flight
        }),
{
    lemma_ended(view, id, RequestLifecycle::Cancelled);
}

/// A runnable request that finishes ends as completed: it keeps its state and its progress,
/// and stands last among the ended ones.
pub proof fn law_finished_requests_end(view: SchedulerView, id: RequestSlotId)
    requires
        view.wf(),
        view.slots.resolves(id),
        view.slots.slot(id).lifecycle is Runnable,
    ensures
        ({
            let slot = view.slots.slot(id);
            let after = view.finished(slot.request.id);
            &&& view.finish_defect(slot.request.id) is None
            &&& after.wf()
            &&& after.slots.resolves(id)
            &&& after.slots.slot(id).lifecycle is Completed
            &&& after.slots.slot(id).state == slot.state
            &&& after.slots.slot(id).progress == slot.progress
            &&& after.queues.terminal == view.queues.terminal.push(id)
            &&& after.queues.prepared == view.queues.prepared
            &&& after.queues.in_flight == view.queues.in_flight
        }),
{
    lemma_ended(view, id, RequestLifecycle::Completed);
    assert(view.queues.of(kind_of(view.slots.slot(id).lifecycle)).contains(id));
}

proof fn lemma_ended(view: SchedulerView, id: RequestSlotId, lifecycle: RequestLifecycle)
    requires
        view.wf(),
        view.slots.resolves(id),
        view.slots.slot(id).lifecycle is Waiting || view.slots.slot(id).lifecycle is Runnable,
        lifecycle.terminal(),
    ensures
        ({
            let slot = view.slots.slot(id);
            let after = view.moved(id, slot.entered(lifecycle)).filled();
            &&& view.slot_for(slot.request.id) == id
            &&& view.slots.has_request(slot.request.id)
            &&& after.wf()
            &&& after.slots.resolves(id)
            &&& after.slots.slot(id) == slot.entered(lifecycle)
            &&& after.queues.terminal == view.queues.terminal.push(id)
            &&& after.queues.prepared == view.queues.prepared
            &&& after.queues.in_flight == view.queues.in_flight
        }),
{
    let slot = view.slots.slot(id);
    let from = kind_of(slot.lifecycle);
    lemma_slot_for(view, id);
    assert(view.queues.of(from).contains(id));
    lemma_member(view, from, id);
    lemma_settled_after_move(view, id, slot.entered(lifecycle));
    lemma_with_slot(view.slots, id, slot.entered(lifecycle));
    let moved = view.moved(id, slot.entered(lifecycle));
    assert(moved.slots.resolves(id) == view.slots.resolves(id));
    lemma_filled(moved);
    lemma_filled_keeps(moved, id);
    law_oldest_waiters_are_promoted(moved);
    let at = choose|at: int| 0 <= at < view.queues.of(from).len() && view.queues.of(from)[at] == id;
    lemma_consistent_kind(view.slots, view.queues, from);
    law_moving_requests_stand_last(view.queues, id, from, QueueKind::Terminal, at);
}

/// Finishing is refused exactly for a request that is not resident or not runnable.
pub proof fn law_refused_finishes(view: SchedulerView, id: RequestSlotId, request: RequestId)
    requires
        view.wf(),
    ensures
        view.slots.resolves(id) && view.slots.slot(id).request.id == request ==> (
        view.finish_defect(request) is None <==> view.slots.slot(id).lifecycle is Runnable),
        !view.slots.has_request(request) ==> view.finish_defect(request) == Some(
            SchedulerError::UnknownRequest(request),
        ),
{
    if view.slots.resolves(id) && view.slots.slot(id).request.id == request {
        lemma_slot_for(view, id);
        assert(view.queues.of(kind_of(view.slots.slot(id).lifecycle)).contains(id));
        if view.queues.runnable.contains(id) {
            assert(view.queues.of(QueueKind::Runnable).contains(id));
            lemma_member(view, QueueKind::Runnable, id);
        }
    }
}

/// Reclaiming takes the request that ended first, and no other, off its slot and its queue.
pub proof fn law_reclamation_takes_the_oldest_end(view: SchedulerView, other: RequestSlotId)
    requires
        view.wf(),
        view.queues.terminal.len() > 0,
    ensures
        ({
            let id = view.queues.terminal[0];
            let after = view.reclaimed();
            &&& view.slots.resolves(id) && view.slots.slot(id).lifecycle.terminal()
            &&& !after.slots.resolves(id)
            &&& after.queues.terminal == view.queues.terminal.skip(1)
            &&& after.queues.waiting == view.queues.waiting
            &&& after.queues.runnable == view.queues.runnable
            &&& after.queues.prepared == view.queues.prepared
            &&& after.queues.in_flight == view.queues.in_flight
            &&& other != id ==> after.slots.resolves(other) == view.slots.resolves(other)
            &&& other != id && view.slots.resolves(other) ==> after.slots.slot(other)
                == view.slots.slot(other)
        }),
{
    let id = view.queues.terminal[0];
    assert(view.queues.of(QueueKind::Terminal).contains(id));
    lemma_member(view, QueueKind::Terminal, id);
    lemma_removed(view.slots, id);
    assert(view.queues.terminal.remove(0) =~= view.queues.terminal.skip(1));
    if other != id {
        assert(view.slots.removed(id).resolves(other) == view.slots.resolves(other));
        if view.slots.resolves(other) {
            assert(view.slots.removed(id).slot(other) == view.slots.slot(other));
        }
    }
}

/// A request leaves its slot exactly where it has ended and holds its state.
pub proof fn law_refused_removals(table: RequestSlotsView, id: RequestSlotId)
    ensures
        table.removal_defect(id) is None <==> table.resolves(id) && table.slot(
            id,
        ).lifecycle.terminal() && table.slot(id).state is Some,
        table.removal_defect(id) == Some(RequestSlotError::UnknownSlot) <==> !table.resolves(id),
        table.removal_defect(id) == Some(RequestSlotError::RequestStillActive) <==> table.resolves(
            id,
        ) && !table.slot(id).lifecycle.terminal(),
{
}

/// A slot that was freed last is taken first, under the next generation; a new one is taken
/// only where none is free.
pub proof fn law_freed_slots_are_taken_again(table: RequestSlotsView, id: RequestSlotId)
    requires
        table.wf(),
        table.resolves(id),
        id.generation < u32::MAX,
    ensures
        table.removed(id).next_id().index == id.index,
        table.removed(id).next_id().generation == id.generation + 1,
        table.free.len() == 0 ==> table.next_index() == table.cells.len(),
{
}

/// A step that completes a slot directly applies where the slot waits for that submission
/// and can count the work.
pub proof fn law_steps_that_apply(
    slot: SlotView,
    submission: BackendSubmissionId,
    phase: ExecutionPhase,
    token_count: u32,
)
    ensures
        slot.step_defect(submission, phase, token_count) is None <==> slot.state is None && (
        slot.lifecycle == RequestLifecycle::Cancelling(submission) || (slot.lifecycle
            == RequestLifecycle::InFlight(submission) && slot.progress.recorded(
            phase,
            token_count,
        ) is Some)),
        slot.state is Some ==> slot.step_defect(submission, phase, token_count) == Some(
            RequestSlotError::StateUnavailable,
        ),
        slot.state is None && slot.lifecycle.owner() != Some(submission) ==> slot.step_defect(
            submission,
            phase,
            token_count,
        ) == Some(RequestSlotError::SubmissionMismatch),
{
}

/// An identity names the request in its cell, where the cell is in use and at the identity's
/// own generation, and no request otherwise.
pub proof fn law_identities_name_their_cell(table: RequestSlotsView, id: RequestSlotId)
    ensures
        table.resolves(id) <==> id.index < table.cells.len() && table.cells[id.index as int].value
            is Some && table.cells[id.index as int].generation == id.generation,
        table.resolves(id) ==> Some(table.slot(id)) == table.cells[id.index as int].value,
{
}

/// Occupied cells are those in use, each counted once.
pub proof fn law_occupied_cells_are_counted(cells: Seq<CellView>, n: int)
    requires
        0 <= n <= cells.len(),
    ensures
        occupied_among(cells, n) == cells.take(n).filter(|cell: CellView| cell.value is Some).len(),
    decreases n,
{
    reveal(Seq::filter);
    if n > 0 {
        law_occupied_cells_are_counted(cells, n - 1);
        assert(cells.take(n).drop_last() =~= cells.take(n - 1));
        assert(cells.take(n).last() == cells[n - 1]);
    } else {
        assert(cells.take(0) =~= Seq::<CellView>::empty());
    }
}

/// A request finds a slot exactly where the cell that was freed last, or a new one where none
/// is free, has an index and a generation left. Where it finds none, a freed cell without one
/// is not offered again, and nothing else changes.
pub proof fn law_slots_for_new_requests(table: RequestSlotsView)
    requires
        table.wf(),
    ensures
        table.free.len() > 0 ==> (table.can_insert() <==> table.cells[table.free[table.free.len()
            - 1] as int].generation < u32::MAX),
        table.free.len() == 0 ==> (table.can_insert() <==> table.cells.len() <= u32::MAX),
        table.exhausted().cells == table.cells,
        table.free.len() > 0 ==> table.exhausted().free == table.free.take(
            table.free.len() - 1,
        ),
        table.free.len() == 0 ==> table.exhausted().free == table.free,
{
    if table.free.len() > 0 {
        assert(table.free[table.free.len() - 1] < table.cells.len());
        assert(table.free.drop_last() =~= table.free.take(table.free.len() - 1));
    }
}

/// A configuration is usable exactly where some request may be active, some prompt token may
/// be processed at a time, and the number of resident requests can be counted.
pub proof fn law_usable_configurations(config: SchedulerConfigView)
    ensures
        config.valid() <==> config.max_active_requests > 0 && config.prefill_chunk_tokens > 0
            && config.max_active_requests + config.max_queued_requests <= usize::MAX,
        config.max_resident() == config.max_active_requests + config.max_queued_requests,
{
}

/// A refused admission changes nothing, but that a slot that can take no request any more is
/// not offered again.
pub proof fn law_refused_admissions_change_nothing(view: SchedulerView, error: SchedulerError)
    ensures
        view.not_admitted(error).queues == view.queues,
        view.not_admitted(error).policy == view.policy,
        view.not_admitted(error).config == view.config,
        view.not_admitted(error).slots.cells == view.slots.cells,
        !(error is Slot) ==> view.not_admitted(error) == view,
{
}

} // verus!
