//! How live submissions and the requests in flight belong together.

use crate::engine::backend::BackendSubmissionId;
use crate::engine::execution::{ExecutionEventView, ExecutionSegmentView};
use crate::engine::ownership::{
    lemma_filled_slots, lemma_owned_after_confirmation, lemma_owned_after_moves_elsewhere,
    lemma_owned_filled, lemma_owned_moved, lemma_owned_same, lemma_released, owner_of,
};
use crate::engine::policy::PolicyVersion;
use crate::engine::queues::{
    belongs, consistent, fits, kind_of, lemma_moved_all, movable, moved_all, QueueKind,
};
use crate::engine::request::RequestSpecView;
use crate::engine::runtime::{event_matches, RuntimeSubmissionView};
use crate::engine::scheduler::{
    event_defect, lemma_member, lemma_owned_members, lemma_settled_after_moves, SchedulerView,
};
use crate::engine::serving::{
    lemma_inserted, lemma_removed, lemma_with_slot, RequestLifecycle, RequestSlotId, SlotView,
};
use crate::engine::state::StateHandle;
use vstd::prelude::*;

verus! {

/// Whether a request can take the completion of a segment: the segment is its own, and the
/// progress that it reports can be counted.
pub open spec fn awaits(slot: SlotView, segment: ExecutionSegmentView) -> bool {
    &&& slot.request.id == segment.request
    &&& slot.progress.recorded(segment.phase, segment.token_count) is Some
    &&& segment.phase is Prefill && segment.sampling is Some ==> slot.progress.recorded(
        segment.phase,
        segment.token_count,
    )->Some_0.with_output() is Some
}

/// Whether a request in flight belongs to a segment of its submission. A request that is
/// being cancelled takes any completion.
pub open spec fn serves(slot: SlotView, segment: ExecutionSegmentView) -> bool {
    &&& slot.request.id == segment.request
    &&& slot.lifecycle is InFlight ==> awaits(slot, segment)
}

/// Whether a live submission carries the requests that it owns, in order.
pub open spec fn carries(scheduler: SchedulerView, submission: RuntimeSubmissionView) -> bool {
    let ids = scheduler.owned(submission.backend_submission);
    &&& ids.len() == submission.batch.len()
    &&& ids.len() > 0
    &&& forall|i: int|
        0 <= i < ids.len() ==> serves(scheduler.slots.slot(#[trigger] ids[i]), submission.batch[i])
}

/// Whether live submissions and requests in flight belong together: each submission
/// carries its requests, and no identity is live twice.
pub open spec fn linked(
    scheduler: SchedulerView,
    submissions: Seq<RuntimeSubmissionView>,
    version: PolicyVersion,
) -> bool {
    &&& forall|i: int, j: int|
        0 <= i < j < submissions.len() ==> (#[trigger] submissions[i]).backend_submission != (
        #[trigger] submissions[j]).backend_submission
    &&& forall|k: int|
        0 <= k < submissions.len() ==> carries(scheduler, #[trigger] submissions[k])
            && submissions[k].policy_version == version
}

/// Whether every request in flight is owned by a submission that is live.
pub open spec fn owned_by_live(
    scheduler: SchedulerView,
    submissions: Seq<RuntimeSubmissionView>,
) -> bool {
    forall|t: BackendSubmissionId|
        (#[trigger] scheduler.owned(t)).len() > 0 ==> live(submissions, t)
}

/// Whether a submission is live.
pub open spec fn live(submissions: Seq<RuntimeSubmissionView>, id: BackendSubmissionId) -> bool {
    exists|k: int| 0 <= k < submissions.len() && (#[trigger] submissions[k]).backend_submission == id
}

/// Whether a request in flight is as it was, but for a requested cancellation.
pub open spec fn undisturbed(before: SlotView, after: SlotView) -> bool {
    after == before || (after.lifecycle is Cancelling && after == before.entered(after.lifecycle))
}

/// What leaves the requests in flight alone keeps the links.
pub proof fn lemma_links_kept(
    before: SchedulerView,
    after: SchedulerView,
    submissions: Seq<RuntimeSubmissionView>,
    version: PolicyVersion,
)
    requires
        consistent(before.slots, before.queues),
        linked(before, submissions, version),
        forall|t: BackendSubmissionId| #[trigger] after.owned(t) == before.owned(t),
        forall|id: RequestSlotId|
            belongs(before.slots, id, QueueKind::InFlight) ==> undisturbed(
                before.slots.slot(id),
                #[trigger] after.slots.slot(id),
            ),
    ensures
        linked(after, submissions, version),
        owned_by_live(before, submissions) ==> owned_by_live(after, submissions),
{
    assert forall|k: int| 0 <= k < submissions.len() implies carries(
        after,
        #[trigger] submissions[k],
    ) && submissions[k].policy_version == version by {
        let submission = submissions[k];
        assert(carries(before, submission));
        let ids = after.owned(submission.backend_submission);
        lemma_owned_members(before, submission.backend_submission);
        assert forall|i: int| 0 <= i < ids.len() implies serves(
            after.slots.slot(#[trigger] ids[i]),
            submission.batch[i],
        ) by {
            assert(belongs(
                before.slots,
                before.owned(submission.backend_submission)[i],
                QueueKind::InFlight,
            ));
            assert(serves(before.slots.slot(ids[i]), submission.batch[i]));
        }
    }
    if owned_by_live(before, submissions) {
        assert forall|t: BackendSubmissionId| (#[trigger] after.owned(t)).len() > 0 implies live(
            submissions,
            t,
        ) by {
            assert(before.owned(t).len() > 0);
        }
    }
}

/// An admission keeps the links.
pub proof fn lemma_links_admitted(
    view: SchedulerView,
    request: RequestSpecView,
    state: Seq<StateHandle>,
    prompt_tokens: u32,
    submissions: Seq<RuntimeSubmissionView>,
    version: PolicyVersion,
)
    requires
        view.wf(),
        view.admission_defect(request.id) is None,
        linked(view, submissions, version),
    ensures
        linked(view.admitted(request, state, prompt_tokens), submissions, version),
        owned_by_live(view, submissions) ==> owned_by_live(
            view.admitted(request, state, prompt_tokens),
            submissions,
        ),
{
    let after = view.admitted(request, state, prompt_tokens);
    let grown = view.slots.inserted(request, state, prompt_tokens);
    let id = view.slots.next_id();
    lemma_inserted(view.slots, request, state, prompt_tokens);
    lemma_with_slot(
        grown,
        id,
        SlotView::admitted(id, request, state, prompt_tokens).entered(RequestLifecycle::Runnable),
    );
    assert forall|other: RequestSlotId| belongs(
        view.slots,
        other,
        QueueKind::InFlight,
    ) implies undisturbed(view.slots.slot(other), #[trigger] after.slots.slot(other)) by {
        assert(other != id);
        assert(grown.slot(other) == view.slots.slot(other));
        assert(grown.resolves(other));
    }
    lemma_in_flight_same(view, after);
    lemma_links_kept(view, after, submissions, version);
}

/// Where the queue in flight and its requests stay the same, so does what is owned.
proof fn lemma_in_flight_same(before: SchedulerView, after: SchedulerView)
    requires
        consistent(before.slots, before.queues),
        after.queues.in_flight == before.queues.in_flight,
        forall|id: RequestSlotId|
            belongs(before.slots, id, QueueKind::InFlight) ==> undisturbed(
                before.slots.slot(id),
                #[trigger] after.slots.slot(id),
            ) && owner_of(after, id) == owner_of(before, id),
    ensures
        forall|t: BackendSubmissionId| #[trigger] after.owned(t) == before.owned(t),
{
    let flying = before.queues.in_flight;
    assert forall|i: int| 0 <= i < flying.len() implies #[trigger] flying[i]
        == after.queues.in_flight[i] && owner_of(before, flying[i]) == owner_of(
        after,
        flying[i],
    ) by {
        assert(before.queues.of(QueueKind::InFlight).contains(flying[i]));
        lemma_member(before, QueueKind::InFlight, flying[i]);
        assert(undisturbed(before.slots.slot(flying[i]), after.slots.slot(flying[i])));
    }
    assert forall|t: BackendSubmissionId| #[trigger] after.owned(t) == before.owned(t) by {
        lemma_owned_same(before, after, t, flying.len() as int);
    }
}

/// Reclaiming an ended request keeps the links.
pub proof fn lemma_links_reclaimed(
    view: SchedulerView,
    submissions: Seq<RuntimeSubmissionView>,
    version: PolicyVersion,
)
    requires
        view.wf(),
        view.queues.terminal.len() > 0,
        linked(view, submissions, version),
    ensures
        linked(view.reclaimed(), submissions, version),
        owned_by_live(view, submissions) ==> owned_by_live(view.reclaimed(), submissions),
{
    let id = view.queues.terminal[0];
    assert(view.queues.of(QueueKind::Terminal).contains(id));
    lemma_member(view, QueueKind::Terminal, id);
    lemma_removed(view.slots, id);
    let after = view.reclaimed();
    assert forall|other: RequestSlotId| belongs(
        view.slots,
        other,
        QueueKind::InFlight,
    ) implies undisturbed(view.slots.slot(other), #[trigger] after.slots.slot(other)) && owner_of(
        after,
        other,
    ) == owner_of(view, other) by {
        assert(other != id);
    }
    lemma_in_flight_same(view, after);
    lemma_links_kept(view, after, submissions, version);
}

/// Moving one request that no submission owns, and filling what it leaves free, keeps the
/// links; so does marking a request in flight as cancelled.
pub proof fn lemma_links_moved(
    view: SchedulerView,
    id: RequestSlotId,
    slot: SlotView,
    submissions: Seq<RuntimeSubmissionView>,
    version: PolicyVersion,
)
    requires
        view.settled(),
        view.slots.resolves(id),
        slot.id == id,
        slot.request.id == view.slots.slot(id).request.id,
        fits(slot),
        view.moved(id, slot).settled(),
        linked(view, submissions, version),
        kind_of(view.slots.slot(id).lifecycle) is InFlight == kind_of(slot.lifecycle) is InFlight,
        kind_of(slot.lifecycle) is InFlight ==> undisturbed(view.slots.slot(id), slot)
            && slot.lifecycle.owner() == owner_of(view, id),
    ensures
        linked(view.moved(id, slot), submissions, version),
        linked(view.moved(id, slot).filled(), submissions, version),
        owned_by_live(view, submissions) ==> owned_by_live(view.moved(id, slot), submissions)
            && owned_by_live(view.moved(id, slot).filled(), submissions),
{
    let after = view.moved(id, slot);
    lemma_with_slot(view.slots, id, slot);
    assert forall|t: BackendSubmissionId| #[trigger] after.owned(t) == view.owned(t) by {
        lemma_owned_moved(view, id, slot, t);
    }
    assert forall|other: RequestSlotId| belongs(
        view.slots,
        other,
        QueueKind::InFlight,
    ) implies undisturbed(view.slots.slot(other), #[trigger] after.slots.slot(other)) by {
        if other != id {
            assert(after.slots.slot(other) == view.slots.slot(other));
        }
    }
    lemma_links_kept(view, after, submissions, version);
    lemma_links_filled(after, submissions, version);
}

/// Filling free places keeps the links.
pub proof fn lemma_links_filled(
    view: SchedulerView,
    submissions: Seq<RuntimeSubmissionView>,
    version: PolicyVersion,
)
    requires
        view.settled(),
        linked(view, submissions, version),
    ensures
        linked(view.filled(), submissions, version),
        owned_by_live(view, submissions) ==> owned_by_live(view.filled(), submissions),
{
    let after = view.filled();
    assert forall|t: BackendSubmissionId| #[trigger] after.owned(t) == view.owned(t) by {
        lemma_owned_filled(view, t);
    }
    lemma_filled_slots(view);
    lemma_links_kept(view, after, submissions, version);
}

/// Moving several requests that no submission owns, to where none owns them, keeps the
/// links.
pub proof fn lemma_links_moved_all(
    view: SchedulerView,
    ids: Seq<RequestSlotId>,
    targets: Seq<SlotView>,
    submissions: Seq<RuntimeSubmissionView>,
    version: PolicyVersion,
)
    requires
        view.settled(),
        movable(view.slots, ids, targets),
        linked(view, submissions, version),
        forall|i: int|
            #![trigger ids[i]]
            #![trigger targets[i]]
            0 <= i < ids.len() ==> !(kind_of(targets[i].lifecycle) is InFlight) && !(kind_of(
                view.slots.slot(ids[i]).lifecycle,
            ) is InFlight),
    ensures
        linked(view.moved_all(ids, targets), submissions, version),
        owned_by_live(view, submissions) ==> owned_by_live(
            view.moved_all(ids, targets),
            submissions,
        ),
{
    let after = view.moved_all(ids, targets);
    lemma_moved_all(view.slots, view.queues, ids, targets, ids.len());
    assert(ids.take(ids.len() as int) =~= ids);
    assert forall|i: int|
        #![trigger ids[i]]
        #![trigger targets[i]]
        0 <= i < ids.len() implies owner_of(view, ids[i]) is None by {
        assert(!(kind_of(view.slots.slot(ids[i]).lifecycle) is InFlight));
    }
    assert forall|t: BackendSubmissionId| #[trigger] after.owned(t) == view.owned(t) by {
        lemma_owned_after_moves_elsewhere(view, ids, targets, ids.len(), t);
    }
    assert forall|id: RequestSlotId| belongs(
        view.slots,
        id,
        QueueKind::InFlight,
    ) implies undisturbed(view.slots.slot(id), #[trigger] after.slots.slot(id)) by {
        if ids.contains(id) {
            let k = choose|k: int| 0 <= k < ids.len() && ids[k] == id;
            assert(!(kind_of(view.slots.slot(ids[k]).lifecycle) is InFlight));
        }
        assert(after.slots.slot(id) == view.slots.slot(id));
    }
    lemma_links_kept(view, after, submissions, version);
}

/// A confirmed submission becomes live.
pub proof fn lemma_links_confirmed(
    view: SchedulerView,
    ids: Seq<RequestSlotId>,
    submissions: Seq<RuntimeSubmissionView>,
    submission: RuntimeSubmissionView,
    version: PolicyVersion,
)
    requires
        view.settled(),
        linked(view, submissions, version),
        view.owned(submission.backend_submission).len() == 0,
        movable(view.slots, ids, view.flying(ids, submission.backend_submission)),
        ids.len() == submission.batch.len(),
        ids.len() > 0,
        submission.policy_version == version,
        forall|i: int|
            0 <= i < ids.len() ==> kind_of(
                view.slots.slot(#[trigger] ids[i]).lifecycle,
            ) is Prepared && awaits(view.slots.slot(ids[i]), submission.batch[i]),
    ensures
        linked(
            view.moved_all(ids, view.flying(ids, submission.backend_submission)),
            submissions.push(submission),
            version,
        ),
        owned_by_live(view, submissions) ==> owned_by_live(
            view.moved_all(ids, view.flying(ids, submission.backend_submission)),
            submissions.push(submission),
        ),
{
    let owner = submission.backend_submission;
    let targets = view.flying(ids, owner);
    let after = view.moved_all(ids, targets);
    let grown = submissions.push(submission);
    lemma_moved_all(view.slots, view.queues, ids, targets, ids.len());
    assert(ids.take(ids.len() as int) =~= ids);
    assert forall|t: BackendSubmissionId| t != owner implies #[trigger] after.owned(t) == view.owned(
        t,
    ) by {
        lemma_owned_after_confirmation(view, ids, targets, ids.len(), owner, t);
    }
    lemma_owned_after_confirmation(view, ids, targets, ids.len(), owner, owner);
    assert(view.owned(owner) + ids =~= ids);
    assert forall|id: RequestSlotId| belongs(
        view.slots,
        id,
        QueueKind::InFlight,
    ) implies #[trigger] after.slots.slot(id) == view.slots.slot(id) by {
        if ids.contains(id) {
            let k = choose|k: int| 0 <= k < ids.len() && ids[k] == id;
            assert(kind_of(view.slots.slot(ids[k]).lifecycle) is Prepared);
        }
    }
    assert forall|k: int| 0 <= k < grown.len() implies carries(after, #[trigger] grown[k])
        && grown[k].policy_version == version by {
        if k < submissions.len() {
            assert(grown[k] == submissions[k]);
            assert(carries(view, submissions[k]));
            let other = submissions[k].backend_submission;
            assert(other != owner);
            let owned = after.owned(other);
            lemma_owned_members(view, other);
            assert forall|i: int| 0 <= i < owned.len() implies serves(
                after.slots.slot(#[trigger] owned[i]),
                submissions[k].batch[i],
            ) by {
                assert(belongs(view.slots, view.owned(other)[i], QueueKind::InFlight));
                assert(serves(view.slots.slot(owned[i]), submissions[k].batch[i]));
            }
        } else {
            let owned = after.owned(owner);
            assert forall|i: int| 0 <= i < owned.len() implies serves(
                after.slots.slot(#[trigger] owned[i]),
                submission.batch[i],
            ) by {
                assert(owned[i] == ids[i]);
                assert(after.slots.slot(ids[i]) == targets[i]);
                assert(awaits(view.slots.slot(ids[i]), submission.batch[i]));
            }
        }
    }
    assert forall|i: int, j: int| 0 <= i < j < grown.len() implies (
    #[trigger] grown[i]).backend_submission != (#[trigger] grown[j]).backend_submission by {
        assert(grown[i] == submissions[i]);
        if j == submissions.len() {
            assert(carries(view, submissions[i]));
        } else {
            assert(grown[j] == submissions[j]);
        }
    }
    if owned_by_live(view, submissions) {
        assert forall|t: BackendSubmissionId| (#[trigger] after.owned(t)).len() > 0 implies live(
            grown,
            t,
        ) by {
            if t == owner {
                assert(grown[submissions.len() as int].backend_submission == t);
            } else {
                assert(view.owned(t).len() > 0);
                let k = choose|k: int|
                    0 <= k < submissions.len() && (#[trigger] submissions[k]).backend_submission
                        == t;
                assert(grown[k].backend_submission == t);
            }
        }
    }
}

/// A submission whose requests have all moved on is not live any more.
pub proof fn lemma_links_released(
    view: SchedulerView,
    submissions: Seq<RuntimeSubmissionView>,
    k: int,
    targets: Seq<SlotView>,
    version: PolicyVersion,
)
    requires
        view.settled(),
        linked(view, submissions, version),
        0 <= k < submissions.len(),
        movable(view.slots, view.owned(submissions[k].backend_submission), targets),
        forall|i: int|
            0 <= i < targets.len() ==> (#[trigger] targets[i]).lifecycle.owner() is None,
    ensures
        linked(
            view.moved_all(view.owned(submissions[k].backend_submission), targets).filled(),
            submissions.remove(k),
            version,
        ),
        owned_by_live(view, submissions) ==> owned_by_live(
            view.moved_all(view.owned(submissions[k].backend_submission), targets).filled(),
            submissions.remove(k),
        ),
{
    let gone = submissions[k].backend_submission;
    let ids = view.owned(gone);
    let moved = view.moved_all(ids, targets);
    let after = moved.filled();
    let left = submissions.remove(k);
    lemma_owned_members(view, gone);
    lemma_settled_after_moves(view, ids, targets);
    lemma_released(view, gone, targets);
    lemma_moved_all(view.slots, view.queues, ids, targets, ids.len());
    assert(ids.take(ids.len() as int) =~= ids);
    lemma_filled_slots(moved);
    assert forall|i: int| 0 <= i < ids.len() implies owner_of(view, #[trigger] ids[i]) == Some(
        gone,
    ) by {
        assert(belongs(view.slots, view.owned(gone)[i], QueueKind::InFlight));
    }
    assert forall|t: BackendSubmissionId| t != gone implies #[trigger] after.owned(t)
        == view.owned(t) by {
        assert forall|i: int|
            #![trigger ids[i]]
            #![trigger targets[i]]
            0 <= i < ids.len() implies !(kind_of(targets[i].lifecycle) is InFlight) && owner_of(
            view,
            ids[i],
        ) != Some(t) by {
            assert(targets[i].lifecycle.owner() is None);
        }
        lemma_owned_after_moves_elsewhere(view, ids, targets, ids.len(), t);
        lemma_owned_filled(moved, t);
    }
    assert forall|j: int| 0 <= j < left.len() implies carries(after, #[trigger] left[j])
        && left[j].policy_version == version by {
        let at = if j < k {
            j
        } else {
            j + 1
        };
        assert(left[j] == submissions[at]);
        assert(carries(view, submissions[at]));
        let other = submissions[at].backend_submission;
        assert(other != gone) by {
            if at < k {
                assert(submissions[at].backend_submission != submissions[k].backend_submission);
            } else {
                assert(submissions[k].backend_submission != submissions[at].backend_submission);
            }
        }
        let owned = after.owned(other);
        lemma_owned_members(view, other);
        assert forall|i: int| 0 <= i < owned.len() implies serves(
            after.slots.slot(#[trigger] owned[i]),
            left[j].batch[i],
        ) by {
            let id = view.owned(other)[i];
            assert(belongs(view.slots, id, QueueKind::InFlight));
            assert(serves(view.slots.slot(id), submissions[at].batch[i]));
            if ids.contains(id) {
                let m = choose|m: int| 0 <= m < ids.len() && ids[m] == id;
                assert(owner_of(view, ids[m]) == Some(gone));
            }
            assert(moved.slots.slot(id) == view.slots.slot(id));
            assert(moved.slots.resolves(id));
        }
    }
    assert forall|i: int, j: int| 0 <= i < j < left.len() implies (
    #[trigger] left[i]).backend_submission != (#[trigger] left[j]).backend_submission by {
        let a = if i < k {
            i
        } else {
            i + 1
        };
        let b = if j < k {
            j
        } else {
            j + 1
        };
        assert(left[i] == submissions[a] && left[j] == submissions[b]);
    }
    if owned_by_live(view, submissions) {
        assert forall|t: BackendSubmissionId| (#[trigger] after.owned(t)).len() > 0 implies live(
            left,
            t,
        ) by {
            assert(t != gone);
            assert(view.owned(t).len() > 0);
            let m = choose|m: int|
                0 <= m < submissions.len() && (#[trigger] submissions[m]).backend_submission == t;
            let at = if m < k {
                m
            } else {
                m - 1
            };
            assert(left[at] == submissions[m]);
        }
    }
}

/// A completion that matches its submission applies to every request of it.
pub proof fn lemma_matching_events_apply(
    scheduler: SchedulerView,
    submission: RuntimeSubmissionView,
    events: Seq<ExecutionEventView>,
    i: int,
)
    requires
        consistent(scheduler.slots, scheduler.queues),
        carries(scheduler, submission),
        submission.accepts(events),
        0 <= i <= events.len(),
    ensures
        scheduler.first_event_defect(
            scheduler.owned(submission.backend_submission),
            events,
            i,
        ) is None,
    decreases events.len() - i,
{
    let ids = scheduler.owned(submission.backend_submission);
    if i < ids.len() {
        lemma_matching_events_apply(scheduler, submission, events, i + 1);
        assert(serves(scheduler.slots.slot(ids[i]), submission.batch[i]));
        assert(event_matches(submission.batch[i], events[i], submission.policy_version));
        assert(event_defect(scheduler.slots.slot(ids[i]), events[i]) is None);
    }
}

} // verus!
