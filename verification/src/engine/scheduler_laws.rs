//! What holds of every scheduler and of every scheduling iteration.

use crate::engine::backend::BackendSubmissionId;
use crate::engine::execution::{ExecutionEventView, ExecutionPhase};
use crate::engine::ownership::lemma_released;
use crate::engine::queues::{
    belongs, fits, kind_of, lemma_consistent_kind, lemma_moved_all, movable, moved_all,
    QueueKind,
};
use crate::engine::request::RequestId;
use crate::engine::scheduler::{
    chunk_size, completed_slot, lemma_completed_slot, lemma_distinct_slots, lemma_member,
    lemma_no_event_defect, lemma_no_work_defect, lemma_owned_members, lemma_promoted, phase_of,
    position_for, repeats_slot, work_for, work_slots, ScheduledWork, SchedulerView,
};
use crate::engine::serving::{lemma_with_slot, RequestLifecycle, RequestSlotId, SlotView};
use crate::engine::state::{position_of, StateHandle};
use vstd::prelude::*;

verus! {

/// Tokens of selected work.
pub open spec fn work_tokens(work: Seq<ScheduledWork>) -> nat
    decreases work.len(),
{
    if work.len() == 0 {
        0
    } else {
        work_tokens(work.drop_last()) + work.last().token_count as nat
    }
}

/// What holds of work while it is being selected: it can be submitted, no slot occurs
/// twice, it is within the sequence limit, and it has used up exactly what the budget
/// lacks; the first `decodes` pieces are decode work, the others prompt chunks.
spec fn selected(view: SchedulerView, work: Seq<ScheduledWork>, budget: u32, decodes: int) -> bool {
    &&& 0 <= decodes <= work.len() <= view.sequence_limit()
    &&& work_tokens(work) + budget == view.policy.max_batch_tokens
    &&& forall|k: int| 0 <= k < work.len() ==> view.work_defect(#[trigger] work[k]) is None
    &&& forall|a: int, b: int|
        0 <= a < b < work.len() ==> (#[trigger] work[a]).slot != (#[trigger] work[b]).slot
    &&& forall|k: int|
        0 <= k < work.len() ==> (#[trigger] work[k]).phase == (if k < decodes {
            ExecutionPhase::Decode
        } else {
            ExecutionPhase::Prefill
        })
}

/// Whether a slot is one of the first `i` runnable ones.
spec fn among_first(view: SchedulerView, id: RequestSlotId, i: int) -> bool {
    exists|j: int| 0 <= j < i && #[trigger] view.queues.runnable[j] == id
}

/// Whether the work from `start` on belongs to the first `i` runnable requests.
spec fn drawn(view: SchedulerView, work: Seq<ScheduledWork>, start: int, i: int) -> bool {
    forall|k: int| start <= k < work.len() ==> among_first(view, (#[trigger] work[k]).slot, i)
}

proof fn lemma_selected_one(
    view: SchedulerView,
    work: Seq<ScheduledWork>,
    budget: u32,
    decodes: int,
    i: int,
    count: u32,
    position: u32,
)
    requires
        view.wf(),
        0 <= i < view.queues.runnable.len(),
        selected(view, work, budget, decodes),
        work.len() < view.sequence_limit(),
        0 < count <= budget,
        position_for(view.slots.slot(view.queues.runnable[i])) == Some(position),
        ({
            let slot = view.slots.slot(view.queues.runnable[i]);
            if phase_of(slot) is Decode {
                count == 1 && decodes == work.len() && drawn(view, work, 0, i)
            } else {
                count == chunk_size(slot, view.config.prefill_chunk_tokens, budget) && drawn(
                    view,
                    work,
                    decodes,
                    i,
                )
            }
        }),
    ensures
        ({
            let slot = view.slots.slot(view.queues.runnable[i]);
            let grown = work.push(work_for(slot, phase_of(slot), count, position));
            let now = if phase_of(slot) is Decode {
                decodes + 1
            } else {
                decodes
            };
            &&& selected(view, grown, (budget - count) as u32, now)
            &&& drawn(
                view,
                grown,
                if phase_of(slot) is Decode {
                    0
                } else {
                    decodes
                },
                i + 1,
            )
        }),
{
    let id = view.queues.runnable[i];
    assert(view.queues.of(QueueKind::Runnable).contains(id));
    lemma_member(view, QueueKind::Runnable, id);
    lemma_consistent_kind(view.slots, view.queues, QueueKind::Runnable);
    let slot = view.slots.slot(id);
    let item = work_for(slot, phase_of(slot), count, position);
    let grown = work.push(item);
    let start = if phase_of(slot) is Decode {
        0
    } else {
        decodes
    };
    assert(grown.drop_last() =~= work);
    assert(view.work_defect(item) is None);
    assert forall|k: int| 0 <= k < grown.len() implies view.work_defect(
        #[trigger] grown[k],
    ) is None by {
        if k < work.len() {
            assert(grown[k] == work[k]);
        }
    }
    assert forall|a: int, b: int| 0 <= a < b < grown.len() implies (#[trigger] grown[a]).slot != (
    #[trigger] grown[b]).slot by {
        assert(grown[a] == work[a]);
        if b < work.len() {
            assert(grown[b] == work[b]);
        } else {
            assert(view.work_defect(work[a]) is None);
            if a >= start {
                assert(among_first(view, work[a].slot, i));
                let j = choose|j: int|
                    0 <= j < i && #[trigger] view.queues.runnable[j] == work[a].slot;
                assert(view.queues.runnable[j] != view.queues.runnable[i]);
            } else {
                assert(work[a].phase is Decode);
            }
        }
    }
    assert forall|k: int| start <= k < grown.len() implies among_first(
        view,
        (#[trigger] grown[k]).slot,
        i + 1,
    ) by {
        if k < work.len() {
            assert(grown[k] == work[k]);
            assert(among_first(view, work[k].slot, i));
        } else {
            assert(view.queues.runnable[i] == grown[k].slot);
        }
    }
    assert forall|k: int| 0 <= k < grown.len() implies (#[trigger] grown[k]).phase == (if k < (
    if phase_of(slot) is Decode {
        decodes + 1
    } else {
        decodes
    }) {
        ExecutionPhase::Decode
    } else {
        ExecutionPhase::Prefill
    }) by {
        if k < work.len() {
            assert(grown[k] == work[k]);
        }
    }
}

proof fn lemma_drawn_later(
    view: SchedulerView,
    work: Seq<ScheduledWork>,
    start: int,
    i: int,
)
    requires
        drawn(view, work, start, i),
    ensures
        drawn(view, work, start, i + 1),
{
    assert forall|k: int| start <= k < work.len() implies among_first(
        view,
        (#[trigger] work[k]).slot,
        i + 1,
    ) by {
        assert(among_first(view, work[k].slot, i));
    }
}

proof fn lemma_decodes(view: SchedulerView, i: int, work: Seq<ScheduledWork>, budget: u32)
    requires
        view.wf(),
        0 <= i,
        selected(view, work, budget, work.len() as int),
        drawn(view, work, 0, i),
    ensures
        view.with_decodes(i, work, budget) matches Some((after, left)) ==> selected(
            view,
            after,
            left,
            after.len() as int,
        ),
    decreases view.queues.runnable.len() - i,
{
    if i < view.queues.runnable.len() && work.len() < view.sequence_limit() && budget > 0 {
        let slot = view.slots.slot(view.queues.runnable[i]);
        if phase_of(slot) is Decode {
            if let Some(position) = position_for(slot) {
                lemma_selected_one(view, work, budget, work.len() as int, i, 1, position);
                lemma_decodes(
                    view,
                    i + 1,
                    work.push(work_for(slot, ExecutionPhase::Decode, 1, position)),
                    (budget - 1) as u32,
                );
            }
        } else {
            lemma_drawn_later(view, work, 0, i);
            lemma_decodes(view, i + 1, work, budget);
        }
    }
}

proof fn lemma_prefills(
    view: SchedulerView,
    i: int,
    work: Seq<ScheduledWork>,
    budget: u32,
    decodes: int,
)
    requires
        view.wf(),
        0 <= i,
        selected(view, work, budget, decodes),
        drawn(view, work, decodes, i),
    ensures
        view.with_prefills(i, work, budget) matches Some((after, left)) ==> selected(
            view,
            after,
            left,
            decodes,
        ),
    decreases view.queues.runnable.len() - i,
{
    if i < view.queues.runnable.len() && work.len() < view.sequence_limit() && budget > 0 {
        let id = view.queues.runnable[i];
        let slot = view.slots.slot(id);
        if phase_of(slot) is Prefill {
            let count = chunk_size(slot, view.config.prefill_chunk_tokens, budget);
            if let Some(position) = position_for(slot) {
                lemma_selected_one(view, work, budget, decodes, i, count, position);
                lemma_prefills(
                    view,
                    i + 1,
                    work.push(work_for(slot, ExecutionPhase::Prefill, count, position)),
                    (budget - count) as u32,
                    decodes,
                );
            }
        } else {
            lemma_drawn_later(view, work, decodes, i);
            lemma_prefills(view, i + 1, work, budget, decodes);
        }
    }
}

/// What one iteration selects: some decode work, then some prompt chunks.
proof fn lemma_planned(view: SchedulerView) -> (r: (int, u32))
    requires
        view.wf(),
        view.planned() is Some,
    ensures
        selected(view, view.planned()->Some_0, r.1, r.0),
{
    let none = Seq::<ScheduledWork>::empty();
    let budget = view.policy.max_batch_tokens;
    assert(selected(view, none, budget, 0));
    assert(drawn(view, none, 0, 0));
    lemma_decodes(view, 0, none, budget);
    let (work, left) = view.with_decodes(0, none, budget)->Some_0;
    assert(drawn(view, work, work.len() as int, 0));
    lemma_prefills(view, 0, work, left, work.len() as int);
    let (all, rest) = view.with_prefills(0, work, left)->Some_0;
    assert(selected(view, all, rest, work.len() as int));
    (work.len() as int, rest)
}

/// One iteration stays within the token budget of the policy, and within the number of
/// requests that the policy and the configuration allow.
pub proof fn law_iterations_stay_within_budget(view: SchedulerView)
    requires
        view.wf(),
        view.planned() is Some,
    ensures
        work_tokens(view.planned()->Some_0) <= view.policy.max_batch_tokens,
        view.planned()->Some_0.len() <= view.policy.max_batch_size,
        view.planned()->Some_0.len() <= view.config.max_active_requests,
{
    let (decodes, left) = lemma_planned(view);
}

/// Decode work comes before prompt work; a decode takes one token, and a chunk takes some
/// tokens and no more than the configuration allows.
pub proof fn law_decode_precedes_prefill(view: SchedulerView, i: int, j: int)
    requires
        view.wf(),
        view.planned() is Some,
        0 <= i < j < view.planned()->Some_0.len(),
        view.planned()->Some_0[j].phase is Decode,
    ensures
        view.planned()->Some_0[i].phase is Decode,
        view.planned()->Some_0[j].token_count == 1,
{
    let (decodes, left) = lemma_planned(view);
    let work = view.planned()->Some_0;
    assert(work[i].phase == (if i < decodes {
        ExecutionPhase::Decode
    } else {
        ExecutionPhase::Prefill
    }));
    assert(view.work_defect(work[j]) is None);
}

/// Prompt chunks are never empty, never larger than configured, and never reach past the
/// prompt.
pub proof fn law_chunks_are_bounded(view: SchedulerView, i: int)
    requires
        view.wf(),
        view.planned() is Some,
        0 <= i < view.planned()->Some_0.len(),
        view.planned()->Some_0[i].phase is Prefill,
    ensures
        0 < view.planned()->Some_0[i].token_count <= view.config.prefill_chunk_tokens,
        ({
            let work = view.planned()->Some_0[i];
            let progress = view.slots.slot(work.slot).progress;
            &&& progress.prompt_processed + work.token_count <= progress.prompt_tokens
            &&& work.requests_output == (progress.prompt_processed + work.token_count
                == progress.prompt_tokens)
        }),
{
    let (decodes, left) = lemma_planned(view);
    let work = view.planned()->Some_0;
    assert(view.work_defect(work[i]) is None);
}

proof fn lemma_no_defect_from(view: SchedulerView, work: Seq<ScheduledWork>, i: int)
    requires
        0 <= i <= work.len(),
        forall|k: int|
            0 <= k < work.len() ==> view.work_defect(#[trigger] work[k]) is None && !repeats_slot(
                work,
                k,
            ),
    ensures
        view.first_work_defect(work, i) is None,
    decreases work.len() - i,
{
    if i < work.len() {
        lemma_no_defect_from(view, work, i + 1);
        assert(view.work_defect(work[i]) is None);
    }
}

/// What an iteration selects can be submitted as it stands.
pub proof fn law_selected_work_is_submittable(view: SchedulerView)
    requires
        view.wf(),
        view.planned() is Some,
    ensures
        view.first_work_defect(view.planned()->Some_0, 0) is None,
{
    let (decodes, left) = lemma_planned(view);
    let work = view.planned()->Some_0;
    assert forall|k: int| 0 <= k < work.len() implies view.work_defect(#[trigger] work[k]) is None
        && !repeats_slot(work, k) by {
        if repeats_slot(work, k) {
            let j = choose|j: int| 0 <= j < k && (#[trigger] work[j]).slot == work[k].slot;
            assert(work[j].slot != work[k].slot);
        }
    }
    lemma_no_defect_from(view, work, 0);
}

/// Free places go to the requests that have waited longest, in the order in which they
/// came, and none stays free while a request waits.
pub proof fn law_oldest_waiters_are_promoted(view: SchedulerView)
    requires
        view.settled(),
    ensures
        exists|k: int|
            0 <= k <= view.queues.waiting.len() && view.filled().queues.waiting
                == #[trigger] view.queues.waiting.skip(k) && view.filled().queues.runnable
                == view.queues.runnable + view.queues.waiting.take(k),
        view.filled().queues.waiting.len() == 0 || view.filled().queues.active()
            == view.config.max_active_requests,
        view.filled().queues.prepared == view.queues.prepared,
        view.filled().queues.in_flight == view.queues.in_flight,
        view.filled().queues.terminal == view.queues.terminal,
    decreases view.queues.waiting.len(),
{
    if view.queues.active() < view.config.max_active_requests && view.queues.waiting.len() > 0 {
        lemma_promoted(view);
        let next = view.promoted();
        law_oldest_waiters_are_promoted(next);
        let k = choose|k: int|
            0 <= k <= next.queues.waiting.len() && next.filled().queues.waiting
                == #[trigger] next.queues.waiting.skip(k) && next.filled().queues.runnable
                == next.queues.runnable + next.queues.waiting.take(k);
        assert(next.queues.waiting.skip(k) =~= view.queues.waiting.skip(k + 1));
        assert(next.queues.runnable + next.queues.waiting.take(k) =~= view.queues.runnable
            + view.queues.waiting.take(k + 1));
    } else {
        assert(view.queues.waiting.skip(0) =~= view.queues.waiting);
        assert(view.queues.runnable + view.queues.waiting.take(0) =~= view.queues.runnable);
    }
}

/// Admission is bounded: never more active requests than configured, never more waiting
/// ones, and never more resident ones.
pub proof fn law_admission_is_bounded(view: SchedulerView)
    requires
        view.wf(),
    ensures
        view.queues.active() <= view.config.max_active_requests,
        view.queues.waiting.len() <= view.config.max_queued_requests,
        view.slots.occupied() <= view.config.max_resident(),
{
}

/// A resident request stands in the queue of its lifecycle and in no other one.
pub proof fn law_each_request_stands_in_one_queue(
    view: SchedulerView,
    id: RequestSlotId,
    kind: QueueKind,
)
    requires
        view.wf(),
        view.slots.resolves(id),
    ensures
        view.queues.of(kind).contains(id) <==> kind == kind_of(view.slots.slot(id).lifecycle),
{
    if view.queues.of(kind).contains(id) {
        lemma_member(view, kind, id);
    }
}

/// Cancelling a request in flight moves nothing and touches no other request: it stays in
/// flight, without a state, until its submission ends.
pub proof fn law_cancellation_in_flight_waits(
    view: SchedulerView,
    request: RequestId,
    other: RequestSlotId,
)
    requires
        view.wf(),
        view.cancellation_defect(request) is None,
        view.slots.resolves(view.slot_for(request)),
        view.slots.slot(view.slot_for(request)).lifecycle.owner() is Some,
        view.slots.resolves(other),
        other != view.slot_for(request),
    ensures
        view.cancelled(request).queues == view.queues,
        view.cancelled(request).slots.slot(view.slot_for(request)).state is None,
        view.cancelled(request).slots.slot(view.slot_for(request)).lifecycle.owner()
            == view.slots.slot(view.slot_for(request)).lifecycle.owner(),
        view.cancelled(request).slots.resolves(other),
        view.cancelled(request).slots.slot(other) == view.slots.slot(other),
{
    let id = view.slot_for(request);
    let slot = view.slots.slot(id);
    assert(view.queues.of(kind_of(slot.lifecycle)).contains(id));
    lemma_member(view, kind_of(slot.lifecycle), id);
    lemma_with_slot(
        view.slots,
        id,
        slot.entered(RequestLifecycle::Cancelling(slot.lifecycle.owner()->Some_0)),
    );
}

/// When its submission completes, a request that is being cancelled ends as cancelled,
/// with its state back and its progress as it was, whatever the step was.
pub proof fn law_completion_ends_cancelled_requests(
    slot: SlotView,
    event: ExecutionEventView,
    state: Seq<StateHandle>,
)
    requires
        slot.lifecycle is Cancelling,
    ensures
        completed_slot(slot, event, state) == slot.restored(RequestLifecycle::Cancelled, state),
{
}

/// A request ends with a completed step exactly when its output budget is used up by it.
pub proof fn law_completion_ends_spent_requests(
    slot: SlotView,
    event: ExecutionEventView,
    state: Seq<StateHandle>,
)
    requires
        slot.lifecycle is InFlight,
    ensures
        ({
            let after = completed_slot(slot, event, state);
            if after.progress.generated_tokens >= slot.request.semantics.max_output_tokens {
                after.lifecycle is Completed
            } else {
                after.lifecycle is Runnable
            }
        }),
        completed_slot(slot, event, state).state == Some(state),
{
}

/// A submission that was refused leaves each of its requests failed and with the state
/// that was taken from it.
pub proof fn law_refused_submissions_restore_state(view: SchedulerView, work: Seq<ScheduledWork>, i: int)
    requires
        view.wf(),
        view.first_work_defect(work, 0) is None,
        0 <= i < work.len(),
    ensures
        ({
            let ids = work_slots(work);
            let states = Seq::new(
                work.len(),
                |k: int| view.slots.slot(work[k].slot).state->Some_0,
            );
            let prepared = view.moved_all(ids, view.lent(ids));
            let after = prepared.moved_all(ids, prepared.failed(ids, states));
            after.slots.slot(work[i].slot) == view.slots.slot(work[i].slot).entered(
                RequestLifecycle::Failed,
            )
        }),
{
    let ids = work_slots(work);
    let states = Seq::new(work.len(), |k: int| view.slots.slot(work[k].slot).state->Some_0);
    let lent = view.lent(ids);
    lemma_no_work_defect(view, work, 0);
    assert forall|k: int| 0 <= k < work.len() implies !#[trigger] repeats_slot(work, k) by {
        assert(view.work_defect(work[k]) is None);
    }
    lemma_distinct_slots(work);
    assert forall|k: int|
        #![trigger ids[k]]
        #![trigger lent[k]]
        0 <= k < ids.len() implies {
        &&& belongs(view.slots, ids[k], QueueKind::Runnable)
        &&& lent[k].id == ids[k]
        &&& lent[k].request == view.slots.slot(ids[k]).request
        &&& fits(lent[k])
    } by {
        assert(view.work_defect(work[k]) is None);
        assert(view.queues.of(QueueKind::Runnable).contains(ids[k]));
        lemma_member(view, QueueKind::Runnable, ids[k]);
    }
    assert(movable(view.slots, ids, lent));
    lemma_moved_all(view.slots, view.queues, ids, lent, ids.len());
    let prepared = view.moved_all(ids, lent);
    let failed = prepared.failed(ids, states);
    assert forall|k: int|
        #![trigger ids[k]]
        #![trigger failed[k]]
        0 <= k < ids.len() implies {
        &&& prepared.slots.resolves(ids[k])
        &&& prepared.slots.slot(ids[k]) == lent[k]
        &&& failed[k].id == ids[k]
        &&& failed[k].request == prepared.slots.slot(ids[k]).request
        &&& fits(failed[k])
    } by {
        assert(belongs(view.slots, ids[k], QueueKind::Runnable));
        assert(prepared.slots.resolves(ids[k]));
        assert(prepared.slots.slot(ids[k]) == lent[k]);
    }
    assert(movable(prepared.slots, ids, failed));
    lemma_moved_all(prepared.slots, prepared.queues, ids, failed, ids.len());
    assert(prepared.slots.slot(ids[i]) == lent[i]);
    assert(belongs(view.slots, ids[i], QueueKind::Runnable));
    let after = prepared.moved_all(ids, failed);
    assert(after.slots.slot(ids[i]) == failed[i]);
    assert(states[i] == view.slots.slot(ids[i]).state->Some_0);
}

/// A completion is applied once: afterwards its submission owns no request, and the same
/// completion is refused as unknown.
pub proof fn law_completions_apply_once(
    view: SchedulerView,
    submission: BackendSubmissionId,
    events: Seq<ExecutionEventView>,
    states: Seq<Seq<StateHandle>>,
)
    requires
        view.wf(),
        view.completion_defect(submission, events, states.len()) is None,
    ensures
        ({
            let ids = view.owned(submission);
            view.moved_all(ids, view.completed(ids, events, states)).filled().owned(
                submission,
            ).len() == 0
        }),
{
    let ids = view.owned(submission);
    let targets = view.completed(ids, events, states);
    lemma_owned_members(view, submission);
    lemma_no_event_defect(view, ids, events, 0);
    assert forall|i: int|
        #![trigger ids[i]]
        #![trigger targets[i]]
        0 <= i < ids.len() implies {
        &&& belongs(view.slots, ids[i], QueueKind::InFlight)
        &&& targets[i].id == ids[i]
        &&& targets[i].request == view.slots.slot(ids[i]).request
        &&& fits(targets[i])
        &&& !(kind_of(targets[i].lifecycle) is Waiting)
        &&& targets[i].lifecycle.owner() is None
    } by {
        assert(belongs(view.slots, view.owned(submission)[i], QueueKind::InFlight));
        lemma_completed_slot(view.slots.slot(ids[i]), events[i], states[i]);
    }
    lemma_released(view, submission, targets);
}

/// Whether a slot occurs in selected work from `start` on.
pub open spec fn served_from(work: Seq<ScheduledWork>, start: int, id: RequestSlotId) -> bool {
    exists|k: int| start <= k < work.len() && (#[trigger] work[k]).slot == id
}

/// Whether a slot occurs in selected work.
pub open spec fn served(work: Seq<ScheduledWork>, id: RequestSlotId) -> bool {
    served_from(work, 0, id)
}

/// Whether a request has its whole prompt behind it, and so is to decode next.
pub open spec fn decode_ready(view: SchedulerView, id: RequestSlotId) -> bool {
    view.slots.slot(id).progress.prompt_processed >= view.slots.slot(id).progress.prompt_tokens
}

/// The least of three numbers.
pub open spec fn least_of(a: int, b: int, c: int) -> int {
    if a <= b && a <= c {
        a
    } else if b <= c {
        b
    } else {
        c
    }
}

/// Whether every one of the first `i` runnable requests of a phase is served from `start` on.
spec fn covered(
    view: SchedulerView,
    work: Seq<ScheduledWork>,
    decode: bool,
    start: int,
    i: int,
) -> bool {
    forall|j: int|
        0 <= j < i && decode_ready(view, #[trigger] view.queues.runnable[j]) == decode
            ==> served_from(work, start, view.queues.runnable[j])
}

/// Whether work from `start` on stands in the order of the runnable queue.
#[verifier::opaque]
spec fn in_queue_order(view: SchedulerView, work: Seq<ScheduledWork>, start: int) -> bool {
    forall|a: int, b: int, i: int, j: int|
        start <= a < b < work.len() && 0 <= i < view.queues.runnable.len() && 0 <= j
            < view.queues.runnable.len() && (#[trigger] work[a]).slot
            == #[trigger] view.queues.runnable[i] && (#[trigger] work[b]).slot
            == #[trigger] view.queues.runnable[j] ==> i < j
}

/// Whether each prompt chunk from `start` on is as large as its prompt, the configuration and
/// what the work before it leaves of the token budget allow.
spec fn chunked(view: SchedulerView, work: Seq<ScheduledWork>, start: int) -> bool {
    forall|k: int|
        start <= k < work.len() ==> (#[trigger] work[k]).token_count == least_of(
            view.slots.slot(work[k].slot).progress.prompt_tokens - view.slots.slot(
                work[k].slot,
            ).progress.prompt_processed,
            view.config.prefill_chunk_tokens as int,
            view.policy.max_batch_tokens - work_tokens(work.take(k)),
        )
}

proof fn lemma_pushed(
    view: SchedulerView,
    work: Seq<ScheduledWork>,
    start: int,
    i: int,
    item: ScheduledWork,
)
    requires
        view.wf(),
        0 <= start <= work.len(),
        0 <= i < view.queues.runnable.len(),
        item.slot == view.queues.runnable[i],
        drawn(view, work, start, i),
        in_queue_order(view, work, start),
        covered(view, work, decode_ready(view, item.slot), start, i),
    ensures
        drawn(view, work.push(item), start, i + 1),
        in_queue_order(view, work.push(item), start),
        covered(view, work.push(item), decode_ready(view, item.slot), start, i + 1),
{
    reveal(in_queue_order);
    lemma_consistent_kind(view.slots, view.queues, QueueKind::Runnable);
    let grown = work.push(item);
    let runnable = view.queues.runnable;
    assert forall|k: int| start <= k < grown.len() implies among_first(
        view,
        (#[trigger] grown[k]).slot,
        i + 1,
    ) by {
        if k < work.len() {
            assert(grown[k] == work[k]);
            assert(among_first(view, work[k].slot, i));
        } else {
            assert(runnable[i] == grown[k].slot);
        }
    }
    assert forall|a: int, b: int, x: int, y: int|
        start <= a < b < grown.len() && 0 <= x < runnable.len() && 0 <= y < runnable.len() && (
        #[trigger] grown[a]).slot == #[trigger] runnable[x] && (#[trigger] grown[b]).slot
            == #[trigger] runnable[y] implies x < y by {
        assert(grown[a] == work[a]);
        if b < work.len() {
            assert(grown[b] == work[b]);
        } else {
            assert(among_first(view, work[a].slot, i));
            let w = choose|w: int| 0 <= w < i && #[trigger] runnable[w] == work[a].slot;
            assert(w == x);
            assert(y == i);
        }
    }
    assert forall|j: int|
        0 <= j < i + 1 && decode_ready(view, #[trigger] runnable[j]) == decode_ready(
            view,
            item.slot,
        ) implies served_from(grown, start, runnable[j]) by {
        if j < i {
            assert(served_from(work, start, runnable[j]));
            let k = choose|k: int|
                start <= k < work.len() && (#[trigger] work[k]).slot == runnable[j];
            assert(grown[k] == work[k]);
        } else {
            assert(grown[work.len() as int].slot == runnable[j]);
        }
    }
}

/// How far decode work is taken from the runnable queue, and what stops it.
proof fn lemma_decodes_reach(
    view: SchedulerView,
    i: int,
    work: Seq<ScheduledWork>,
    budget: u32,
) -> (m: int)
    requires
        view.wf(),
        0 <= i <= view.queues.runnable.len(),
        work.len() <= view.sequence_limit(),
        drawn(view, work, 0, i),
        in_queue_order(view, work, 0),
        covered(view, work, true, 0, i),
        view.with_decodes(i, work, budget) is Some,
    ensures
        ({
            let (after, left) = view.with_decodes(i, work, budget)->Some_0;
            &&& i <= m <= view.queues.runnable.len()
            &&& drawn(view, after, 0, m)
            &&& in_queue_order(view, after, 0)
            &&& covered(view, after, true, 0, m)
            &&& after.len() <= view.sequence_limit()
            &&& after.len() + left == work.len() + budget
            &&& m == view.queues.runnable.len() || after.len() == view.sequence_limit() || left
                == 0
        }),
    decreases view.queues.runnable.len() - i,
{
    if i < view.queues.runnable.len() && work.len() < view.sequence_limit() && budget > 0 {
        let id = view.queues.runnable[i];
        assert(view.queues.of(QueueKind::Runnable).contains(id));
        lemma_member(view, QueueKind::Runnable, id);
        let slot = view.slots.slot(id);
        if phase_of(slot) is Decode {
            let position = position_for(slot)->Some_0;
            let item = work_for(slot, ExecutionPhase::Decode, 1, position);
            lemma_pushed(view, work, 0, i, item);
            lemma_decodes_reach(view, i + 1, work.push(item), (budget - 1) as u32)
        } else {
            lemma_drawn_later(view, work, 0, i);
            lemma_decodes_reach(view, i + 1, work, budget)
        }
    } else {
        i
    }
}

/// How far prompt chunks are taken from the runnable queue, how large they are, and what
/// stops them.
proof fn lemma_prefills_reach(
    view: SchedulerView,
    i: int,
    work: Seq<ScheduledWork>,
    budget: u32,
    decodes: int,
) -> (m: int)
    requires
        view.wf(),
        0 <= i <= view.queues.runnable.len(),
        0 <= decodes <= work.len() <= view.sequence_limit(),
        work_tokens(work) + budget == view.policy.max_batch_tokens,
        drawn(view, work, decodes, i),
        in_queue_order(view, work, decodes),
        covered(view, work, false, decodes, i),
        chunked(view, work, decodes),
        view.with_prefills(i, work, budget) is Some,
    ensures
        ({
            let (after, left) = view.with_prefills(i, work, budget)->Some_0;
            &&& i <= m <= view.queues.runnable.len()
            &&& work.len() <= after.len() <= view.sequence_limit()
            &&& work =~= after.take(work.len() as int)
            &&& work_tokens(after) + left == view.policy.max_batch_tokens
            &&& drawn(view, after, decodes, m)
            &&& in_queue_order(view, after, decodes)
            &&& covered(view, after, false, decodes, m)
            &&& chunked(view, after, decodes)
            &&& work.len() == view.sequence_limit() || budget == 0 ==> after == work
            &&& m == view.queues.runnable.len() || after.len() == view.sequence_limit() || left
                == 0
        }),
    decreases view.queues.runnable.len() - i,
{
    if i < view.queues.runnable.len() && work.len() < view.sequence_limit() && budget > 0 {
        let id = view.queues.runnable[i];
        assert(view.queues.of(QueueKind::Runnable).contains(id));
        lemma_member(view, QueueKind::Runnable, id);
        let slot = view.slots.slot(id);
        if phase_of(slot) is Prefill {
            let count = chunk_size(slot, view.config.prefill_chunk_tokens, budget);
            let position = position_for(slot)->Some_0;
            let item = work_for(slot, ExecutionPhase::Prefill, count, position);
            let grown = work.push(item);
            lemma_pushed(view, work, decodes, i, item);
            assert(grown.drop_last() =~= work);
            assert forall|k: int| decodes <= k < grown.len() implies (
            #[trigger] grown[k]).token_count == least_of(
                view.slots.slot(grown[k].slot).progress.prompt_tokens - view.slots.slot(
                    grown[k].slot,
                ).progress.prompt_processed,
                view.config.prefill_chunk_tokens as int,
                view.policy.max_batch_tokens - work_tokens(grown.take(k)),
            ) by {
                if k < work.len() {
                    assert(grown[k] == work[k]);
                    assert(grown.take(k) =~= work.take(k));
                } else {
                    assert(grown.take(k) =~= work);
                }
            }
            let m = lemma_prefills_reach(view, i + 1, grown, (budget - count) as u32, decodes);
            let (after, left) = view.with_prefills(i, work, budget)->Some_0;
            assert(after.take(work.len() as int) =~= after.take(grown.len() as int).take(
                work.len() as int,
            ));
            assert(grown.take(work.len() as int) =~= work);
            m
        } else {
            lemma_drawn_later(view, work, decodes, i);
            lemma_prefills_reach(view, i + 1, work, budget, decodes)
        }
    } else {
        assert(work.take(work.len() as int) =~= work);
        i
    }
}

/// What one iteration reaches: how many decodes come first, how far decodes and chunks were
/// taken from the queue, and what was left of the budget for chunks and at the end.
proof fn lemma_reach(view: SchedulerView) -> (r: (int, int, int, u32, u32))
    requires
        view.wf(),
        view.planned() is Some,
    ensures
        ({
            let work = view.planned()->Some_0;
            let (decodes, reached, chunks_reached, left, rest) = r;
            &&& 0 <= decodes <= work.len() <= view.sequence_limit()
            &&& 0 <= reached <= view.queues.runnable.len()
            &&& 0 <= chunks_reached <= view.queues.runnable.len()
            &&& forall|k: int|
                0 <= k < work.len() ==> ((#[trigger] work[k]).phase is Decode <==> k < decodes)
            &&& decodes + left == view.policy.max_batch_tokens
            &&& work_tokens(work) + rest == view.policy.max_batch_tokens
            &&& covered(view, work.take(decodes), true, 0, reached)
            &&& drawn(view, work.take(decodes), 0, reached)
            &&& in_queue_order(view, work.take(decodes), 0)
            &&& covered(view, work, false, decodes, chunks_reached)
            &&& drawn(view, work, decodes, chunks_reached)
            &&& in_queue_order(view, work, decodes)
            &&& chunked(view, work, decodes)
            &&& reached == view.queues.runnable.len() || decodes == view.sequence_limit() || left
                == 0
            &&& decodes == view.sequence_limit() || left == 0 ==> work.len() == decodes
            &&& chunks_reached == view.queues.runnable.len() || work.len()
                == view.sequence_limit() || rest == 0
        }),
{
    let none = Seq::<ScheduledWork>::empty();
    let budget = view.policy.max_batch_tokens;
    assert(selected(view, none, budget, 0));
    assert(drawn(view, none, 0, 0));
    lemma_decodes(view, 0, none, budget);
    assert(in_queue_order(view, none, 0)) by {
        reveal(in_queue_order);
    }
    let reached = lemma_decodes_reach(view, 0, none, budget);
    let (work, left) = view.with_decodes(0, none, budget)->Some_0;
    let decodes = work.len() as int;
    assert(drawn(view, work, decodes, 0));
    lemma_prefills(view, 0, work, left, decodes);
    assert(in_queue_order(view, work, decodes)) by {
        reveal(in_queue_order);
    }
    let chunks_reached = lemma_prefills_reach(view, 0, work, left, decodes);
    let (all, rest) = view.with_prefills(0, work, left)->Some_0;
    assert(all.take(decodes) =~= work);
    (decodes, reached, chunks_reached, left, rest)
}

proof fn lemma_served_in_take(work: Seq<ScheduledWork>, n: int, id: RequestSlotId)
    requires
        0 <= n <= work.len(),
    ensures
        served_from(work.take(n), 0, id) ==> served(work, id),
{
    if served_from(work.take(n), 0, id) {
        let k = choose|k: int|
            0 <= k < work.take(n).len() && (#[trigger] work.take(n)[k]).slot == id;
        assert(work[k].slot == id);
    }
}

/// Scheduling is work-conserving. While an iteration has room for another request and for
/// another token, it leaves no runnable request out. It leaves a request that is ready to
/// decode out only where it is filled with decodes, as many as the limits allow.
pub proof fn law_scheduling_is_work_conserving(view: SchedulerView)
    requires
        view.wf(),
        view.planned() is Some,
    ensures
        ({
            let work = view.planned()->Some_0;
            let runnable = view.queues.runnable;
            &&& work.len() < view.config.max_active_requests && work.len()
                < view.policy.max_batch_size && work_tokens(work) < view.policy.max_batch_tokens
                ==> forall|j: int| 0 <= j < runnable.len() ==> served(work, #[trigger] runnable[j])
            &&& forall|j: int|
                0 <= j < runnable.len() && decode_ready(view, #[trigger] runnable[j]) && !served(
                    work,
                    runnable[j],
                ) ==> {
                    &&& work.len() == least_of(
                        view.config.max_active_requests as int,
                        view.policy.max_batch_size as int,
                        view.policy.max_batch_tokens as int,
                    )
                    &&& forall|k: int|
                        0 <= k < work.len() ==> (#[trigger] work[k]).phase is Decode
                            && work[k].token_count == 1
                }
        }),
{
    let (decodes, reached, chunks_reached, left, rest) = lemma_reach(view);
    let (count, over) = lemma_planned(view);
    let work = view.planned()->Some_0;
    let runnable = view.queues.runnable;
    assert forall|j: int| 0 <= j < runnable.len() && !served(work, #[trigger] runnable[j]) implies {
        &&& decode_ready(view, runnable[j]) ==> decodes == view.sequence_limit() || left == 0
        &&& !decode_ready(view, runnable[j]) ==> work.len() == view.sequence_limit() || rest == 0
    } by {
        if decode_ready(view, runnable[j]) && j < reached {
            assert(served_from(work.take(decodes), 0, runnable[j]));
            lemma_served_in_take(work, decodes, runnable[j]);
        }
        if !decode_ready(view, runnable[j]) && j < chunks_reached {
            assert(served_from(work, decodes, runnable[j]));
        }
    }
    assert forall|k: int| 0 <= k < work.len() && (#[trigger] work[k]).phase is Decode implies
        work[k].token_count == 1 by {
        assert(view.work_defect(work[k]) is None);
    }
    if decodes == view.sequence_limit() || left == 0 {
        assert(work.take(decodes) =~= work);
        if left == 0 && decodes != view.sequence_limit() {
            assert(rest == 0) by {
                lemma_decode_tokens(work);
            }
        }
        lemma_decode_tokens(work);
    }
}

proof fn lemma_decode_tokens(work: Seq<ScheduledWork>)
    requires
        forall|k: int| 0 <= k < work.len() ==> (#[trigger] work[k]).token_count == 1,
    ensures
        work_tokens(work) == work.len(),
    decreases work.len(),
{
    if work.len() > 0 {
        assert forall|k: int| 0 <= k < work.drop_last().len() implies (
        #[trigger] work.drop_last()[k]).token_count == 1 by {
            assert(work.drop_last()[k] == work[k]);
        }
        lemma_decode_tokens(work.drop_last());
    }
}

/// A prompt chunk is as large as possible: the rest of the prompt, or the configured chunk, or
/// what the work before it leaves of the token budget, whichever is least.
pub proof fn law_chunks_are_as_large_as_possible(view: SchedulerView, k: int)
    requires
        view.wf(),
        view.planned() is Some,
        0 <= k < view.planned()->Some_0.len(),
        view.planned()->Some_0[k].phase is Prefill,
    ensures
        ({
            let work = view.planned()->Some_0;
            let progress = view.slots.slot(work[k].slot).progress;
            work[k].token_count == least_of(
                progress.prompt_tokens - progress.prompt_processed,
                view.config.prefill_chunk_tokens as int,
                view.policy.max_batch_tokens - work_tokens(work.take(k)),
            )
        }),
{
    let (decodes, reached, chunks_reached, left, rest) = lemma_reach(view);
    assert(!(view.planned()->Some_0[k].phase is Decode));
}

proof fn lemma_ordered_pair(
    view: SchedulerView,
    work: Seq<ScheduledWork>,
    start: int,
    a: int,
    b: int,
    i: int,
    j: int,
)
    requires
        in_queue_order(view, work, start),
        start <= a < b < work.len(),
        0 <= i < view.queues.runnable.len(),
        0 <= j < view.queues.runnable.len(),
        work[a].slot == view.queues.runnable[i],
        work[b].slot == view.queues.runnable[j],
    ensures
        i < j,
{
    reveal(in_queue_order);
}

proof fn lemma_ordered_reach(view: SchedulerView) -> (decodes: int)
    requires
        view.wf(),
        view.planned() is Some,
    ensures
        ({
            let work = view.planned()->Some_0;
            &&& 0 <= decodes <= work.len()
            &&& forall|k: int|
                0 <= k < work.len() ==> ((#[trigger] work[k]).phase is Decode <==> k < decodes)
            &&& in_queue_order(view, work.take(decodes), 0)
            &&& in_queue_order(view, work, decodes)
        }),
{
    let (decodes, reached, chunks_reached, left, rest) = lemma_reach(view);
    decodes
}

/// Work of one phase keeps the order of the runnable queue.
pub proof fn law_work_keeps_queue_order(view: SchedulerView, a: int, b: int, i: int, j: int)
    requires
        view.wf(),
        view.planned() is Some,
        0 <= a < b < view.planned()->Some_0.len(),
        view.planned()->Some_0[a].phase == view.planned()->Some_0[b].phase,
        0 <= i < view.queues.runnable.len(),
        0 <= j < view.queues.runnable.len(),
        view.planned()->Some_0[a].slot == view.queues.runnable[i],
        view.planned()->Some_0[b].slot == view.queues.runnable[j],
    ensures
        i < j,
{
    let decodes = lemma_ordered_reach(view);
    let work = view.planned()->Some_0;
    if b < decodes {
        assert(work.take(decodes)[a] == work[a]);
        assert(work.take(decodes)[b] == work[b]);
        lemma_ordered_pair(view, work.take(decodes), 0, a, b, i, j);
    } else {
        assert(!(work[b].phase is Decode));
        assert(!(work[a].phase is Decode));
        lemma_ordered_pair(view, work, decodes, a, b, i, j);
    }
}

/// No request is passed over: one that is served leaves none of the same phase before it in
/// the queue unserved.
pub proof fn law_no_request_is_passed_over(view: SchedulerView, i: int, j: int)
    requires
        view.wf(),
        view.planned() is Some,
        0 <= i < j < view.queues.runnable.len(),
        decode_ready(view, view.queues.runnable[i]) == decode_ready(
            view,
            view.queues.runnable[j],
        ),
        served(view.planned()->Some_0, view.queues.runnable[j]),
    ensures
        served(view.planned()->Some_0, view.queues.runnable[i]),
{
    let (decodes, reached, chunks_reached, left, rest) = lemma_reach(view);
    let (count, over) = lemma_planned(view);
    lemma_consistent_kind(view.slots, view.queues, QueueKind::Runnable);
    let work = view.planned()->Some_0;
    let runnable = view.queues.runnable;
    let k = choose|k: int| 0 <= k < work.len() && (#[trigger] work[k]).slot == runnable[j];
    assert(view.work_defect(work[k]) is None);
    if decode_ready(view, runnable[j]) {
        assert(k < decodes);
        assert(work.take(decodes)[k] == work[k]);
        assert(among_first(view, work.take(decodes)[k].slot, reached));
        let w = choose|w: int| 0 <= w < reached && #[trigger] runnable[w] == runnable[j];
        assert(w == j);
        assert(served_from(work.take(decodes), 0, runnable[i]));
        lemma_served_in_take(work, decodes, runnable[i]);
    } else {
        assert(k >= decodes);
        assert(among_first(view, work[k].slot, chunks_reached));
        let w = choose|w: int| 0 <= w < chunks_reached && #[trigger] runnable[w] == runnable[j];
        assert(w == j);
        assert(served_from(work, decodes, runnable[i]));
    }
}

/// Selected work goes on where its request stands: it names a runnable request, decodes where
/// the prompt is processed and takes prompt tokens where it is not, starts at the position of
/// the request's state, and ends in an output token where it decodes or ends the prompt. No
/// request is selected twice.
pub proof fn law_selected_work_continues_its_request(view: SchedulerView, k: int)
    requires
        view.wf(),
        view.planned() is Some,
        0 <= k < view.planned()->Some_0.len(),
    ensures
        ({
            let work = view.planned()->Some_0;
            let slot = view.slots.slot(work[k].slot);
            let progress = slot.progress;
            &&& view.queues.runnable.contains(work[k].slot)
            &&& view.slots.resolves(work[k].slot)
            &&& slot.lifecycle is Runnable
            &&& work[k].request == slot.request.id
            &&& work[k].phase is Decode <==> progress.prompt_processed >= progress.prompt_tokens
            &&& work[k].phase is Decode ==> work[k].token_count == 1
            &&& slot.state is Some && position_of(slot.state->Some_0) is Some
                ==> work[k].state_position == position_of(slot.state->Some_0)->Some_0
            &&& slot.state is Some && position_of(slot.state->Some_0) is None
                ==> work[k].state_position == progress.prompt_processed
                + progress.decode_processed
            &&& work[k].requests_output <==> work[k].phase is Decode
                || progress.prompt_processed + work[k].token_count == progress.prompt_tokens
            &&& forall|j: int|
                0 <= j < work.len() && j != k ==> (#[trigger] work[j]).slot != work[k].slot
        }),
{
    let (decodes, left) = lemma_planned(view);
    let work = view.planned()->Some_0;
    assert(view.work_defect(work[k]) is None);
    assert(view.queues.of(QueueKind::Runnable).contains(work[k].slot));
    lemma_member(view, QueueKind::Runnable, work[k].slot);
    assert forall|j: int| 0 <= j < work.len() && j != k implies (#[trigger] work[j]).slot
        != work[k].slot by {
        if j < k {
            assert(work[j].slot != work[k].slot);
        } else {
            assert(work[k].slot != work[j].slot);
        }
    }
}

/// Whether a request stands at a position that cannot be represented: it has no state that
/// stands anywhere, and has processed more than can be counted.
pub open spec fn beyond_positions(slot: SlotView) -> bool {
    &&& slot.state is Some ==> position_of(slot.state->Some_0) is None
    &&& slot.progress.prompt_processed + slot.progress.decode_processed > u32::MAX
}

/// An iteration fails only where a runnable request stands at a position that cannot be
/// represented.
pub proof fn law_iterations_fail_only_beyond_positions(view: SchedulerView)
    requires
        view.planned() is None,
    ensures
        exists|j: int|
            0 <= j < view.queues.runnable.len() && beyond_positions(
                view.slots.slot(#[trigger] view.queues.runnable[j]),
            ),
{
    let none = Seq::<ScheduledWork>::empty();
    let budget = view.policy.max_batch_tokens;
    match view.with_decodes(0, none, budget) {
        None => {
            lemma_decodes_fail(view, 0, none, budget);
        },
        Some((work, left)) => {
            lemma_prefills_fail(view, 0, work, left);
        },
    }
}

proof fn lemma_decodes_fail(view: SchedulerView, i: int, work: Seq<ScheduledWork>, budget: u32)
    requires
        view.with_decodes(i, work, budget) is None,
    ensures
        exists|j: int|
            0 <= j < view.queues.runnable.len() && beyond_positions(
                view.slots.slot(#[trigger] view.queues.runnable[j]),
            ),
    decreases view.queues.runnable.len() - i,
{
    let slot = view.slots.slot(view.queues.runnable[i]);
    if phase_of(slot) is Decode {
        match position_for(slot) {
            None => {
                assert(beyond_positions(view.slots.slot(view.queues.runnable[i])));
            },
            Some(position) => {
                lemma_decodes_fail(
                    view,
                    i + 1,
                    work.push(work_for(slot, ExecutionPhase::Decode, 1, position)),
                    (budget - 1) as u32,
                );
            },
        }
    } else {
        lemma_decodes_fail(view, i + 1, work, budget);
    }
}

proof fn lemma_prefills_fail(view: SchedulerView, i: int, work: Seq<ScheduledWork>, budget: u32)
    requires
        view.with_prefills(i, work, budget) is None,
    ensures
        exists|j: int|
            0 <= j < view.queues.runnable.len() && beyond_positions(
                view.slots.slot(#[trigger] view.queues.runnable[j]),
            ),
    decreases view.queues.runnable.len() - i,
{
    let slot = view.slots.slot(view.queues.runnable[i]);
    if phase_of(slot) is Prefill {
        let count = chunk_size(slot, view.config.prefill_chunk_tokens, budget);
        match position_for(slot) {
            None => {
                assert(beyond_positions(view.slots.slot(view.queues.runnable[i])));
            },
            Some(position) => {
                lemma_prefills_fail(
                    view,
                    i + 1,
                    work.push(work_for(slot, ExecutionPhase::Prefill, count, position)),
                    (budget - count) as u32,
                );
            },
        }
    } else {
        lemma_prefills_fail(view, i + 1, work, budget);
    }
}

/// Work can be submitted together exactly where each piece of it can and no request occurs in
/// it twice.
pub proof fn law_work_that_can_be_submitted_together(
    view: SchedulerView,
    work: Seq<ScheduledWork>,
)
    ensures
        view.first_work_defect(work, 0) is None <==> (forall|k: int|
            0 <= k < work.len() ==> view.work_defect(#[trigger] work[k]) is None) && forall|
            a: int,
            b: int,
        |
            0 <= a < b < work.len() ==> (#[trigger] work[a]).slot != (#[trigger] work[b]).slot,
{
    if view.first_work_defect(work, 0) is None {
        lemma_no_work_defect(view, work, 0);
        assert forall|a: int, b: int| 0 <= a < b < work.len() implies (#[trigger] work[a]).slot
            != (#[trigger] work[b]).slot by {
            assert(view.work_defect(work[b]) is None && !repeats_slot(work, b));
        }
    }
    if (forall|k: int| 0 <= k < work.len() ==> view.work_defect(#[trigger] work[k]) is None)
        && forall|a: int, b: int|
        0 <= a < b < work.len() ==> (#[trigger] work[a]).slot != (#[trigger] work[b]).slot {
        assert forall|k: int| 0 <= k < work.len() implies view.work_defect(
            #[trigger] work[k],
        ) is None && !repeats_slot(work, k) by {
            if repeats_slot(work, k) {
                let j = choose|j: int| 0 <= j < k && (#[trigger] work[j]).slot == work[k].slot;
                assert(work[j].slot != work[k].slot);
            }
        }
        lemma_no_defect_from(view, work, 0);
    }
}

} // verus!
