//! Which requests a backend submission owns, while requests move between queues.

use crate::engine::backend::BackendSubmissionId;
use crate::engine::queues::{
    belongs, consistent, fits, kind_of, lemma_consistent_kind, lemma_moved, lemma_moved_all,
    movable, moved_all, QueueKind,
};
use crate::engine::scheduler::{
    lemma_member, lemma_promoted, lemma_settled_after_moves, SchedulerView,
};
use crate::engine::serving::{lemma_with_slot, RequestLifecycle, RequestSlotId, SlotView};
use vstd::prelude::*;

verus! {

/// The submission that owns a request, if one does.
pub open spec fn owner_of(view: SchedulerView, id: RequestSlotId) -> Option<BackendSubmissionId> {
    view.slots.slot(id).lifecycle.owner()
}

pub proof fn lemma_owned_same(
    a: SchedulerView,
    b: SchedulerView,
    submission: BackendSubmissionId,
    n: int,
)
    requires
        n <= a.queues.in_flight.len(),
        n <= b.queues.in_flight.len(),
        forall|i: int|
            0 <= i < n ==> #[trigger] a.queues.in_flight[i] == b.queues.in_flight[i] && owner_of(
                a,
                a.queues.in_flight[i],
            ) == owner_of(b, a.queues.in_flight[i]),
    ensures
        a.owned_among(submission, n) == b.owned_among(submission, n),
    decreases n,
{
    if n > 0 {
        lemma_owned_same(a, b, submission, n - 1);
        assert(a.queues.in_flight[n - 1] == b.queues.in_flight[n - 1]);
    }
}

proof fn lemma_owned_removed(
    a: SchedulerView,
    b: SchedulerView,
    k: int,
    submission: BackendSubmissionId,
    n: int,
)
    requires
        0 <= k < a.queues.in_flight.len(),
        b.queues.in_flight == a.queues.in_flight.remove(k),
        owner_of(a, a.queues.in_flight[k]) != Some(submission),
        0 <= n <= b.queues.in_flight.len(),
        forall|i: int|
            0 <= i < a.queues.in_flight.len() && i != k ==> owner_of(
                b,
                #[trigger] a.queues.in_flight[i],
            ) == owner_of(a, a.queues.in_flight[i]),
    ensures
        b.owned_among(submission, n) == a.owned_among(
            submission,
            if n <= k {
                n
            } else {
                n + 1
            },
        ),
    decreases n,
{
    if n > 0 {
        lemma_owned_removed(a, b, k, submission, n - 1);
        let last = b.queues.in_flight[n - 1];
        if n <= k {
            assert(last == a.queues.in_flight[n - 1]);
        } else {
            assert(last == a.queues.in_flight[n]);
            if n - 1 == k {
                assert(a.owned_among(submission, n) == a.owned_among(submission, n - 1));
            }
        }
    }
}

/// Moving one request changes what a submission owns only where the request leaves its
/// ownership or enters it.
pub proof fn lemma_owned_moved(
    view: SchedulerView,
    id: RequestSlotId,
    slot: SlotView,
    submission: BackendSubmissionId,
)
    requires
        consistent(view.slots, view.queues),
        view.slots.resolves(id),
        slot.id == id,
        slot.request.id == view.slots.slot(id).request.id,
        fits(slot),
        kind_of(slot.lifecycle) is InFlight && kind_of(view.slots.slot(id).lifecycle) is InFlight
            ==> slot.lifecycle.owner() == owner_of(view, id),
    ensures
        kind_of(slot.lifecycle) is InFlight && !(kind_of(
            view.slots.slot(id).lifecycle,
        ) is InFlight) ==> view.moved(id, slot).owned(submission) == (if slot.lifecycle.owner()
            == Some(submission) {
            view.owned(submission).push(id)
        } else {
            view.owned(submission)
        }),
        !(kind_of(slot.lifecycle) is InFlight) && kind_of(
            view.slots.slot(id).lifecycle,
        ) is InFlight && owner_of(view, id) != Some(submission) ==> view.moved(id, slot).owned(
            submission,
        ) == view.owned(submission),
        (kind_of(slot.lifecycle) is InFlight) == (kind_of(
            view.slots.slot(id).lifecycle,
        ) is InFlight) ==> view.moved(id, slot).owned(submission) == view.owned(submission),
{
    let from = kind_of(view.slots.slot(id).lifecycle);
    let to = kind_of(slot.lifecycle);
    let after = view.moved(id, slot);
    let flying = view.queues.in_flight;
    lemma_with_slot(view.slots, id, slot);
    lemma_moved(view.slots, view.queues, id, slot);
    lemma_consistent_kind(view.slots, view.queues, QueueKind::InFlight);
    assert forall|i: int| 0 <= i < flying.len() && flying[i] != id implies owner_of(
        after,
        #[trigger] flying[i],
    ) == owner_of(view, flying[i]) by {
        assert(belongs(view.slots, flying[i], QueueKind::InFlight));
    }
    if from is InFlight && !(to is InFlight) {
        assert(view.queues.of(QueueKind::InFlight).contains(id));
        let k = flying.index_of(id);
        assert(0 <= k < flying.len() && flying[k] == id);
        assert(after.queues.in_flight == flying.remove(k));
        assert forall|i: int| 0 <= i < flying.len() && i != k implies owner_of(
            after,
            #[trigger] flying[i],
        ) == owner_of(view, flying[i]) by {
            assert(flying[i] != flying[k]);
        }
        if owner_of(view, id) != Some(submission) {
            lemma_owned_removed(view, after, k, submission, after.queues.in_flight.len() as int);
            if after.queues.in_flight.len() <= k {
                assert(k == flying.len() - 1);
                assert(view.owned_among(submission, flying.len() as int) == view.owned_among(
                    submission,
                    flying.len() - 1,
                ));
            }
        }
    } else {
        assert forall|i: int| 0 <= i < flying.len() implies #[trigger] flying[i]
            == after.queues.in_flight[i] && owner_of(view, flying[i]) == owner_of(
            after,
            flying[i],
        ) by {
            if flying[i] == id {
                assert(belongs(view.slots, flying[i], QueueKind::InFlight));
            }
        }
        lemma_owned_same(view, after, submission, flying.len() as int);
    }
}

/// Moving several requests out of other submissions changes nothing of what a submission
/// owns, and neither does moving requests that none owns.
pub proof fn lemma_owned_after_moves_elsewhere(
    view: SchedulerView,
    ids: Seq<RequestSlotId>,
    targets: Seq<SlotView>,
    n: nat,
    submission: BackendSubmissionId,
)
    requires
        consistent(view.slots, view.queues),
        movable(view.slots, ids, targets),
        n <= ids.len(),
        forall|i: int|
            #![trigger ids[i]]
            #![trigger targets[i]]
            0 <= i < ids.len() ==> !(kind_of(targets[i].lifecycle) is InFlight) && owner_of(
                view,
                ids[i],
            ) != Some(submission),
    ensures
        view.with(moved_all(view.slots, view.queues, ids, targets, n)).owned(submission)
            == view.owned(submission),
    decreases n,
{
    if n > 0 {
        let m = (n - 1) as nat;
        lemma_owned_after_moves_elsewhere(view, ids, targets, m, submission);
        lemma_moved_all(view.slots, view.queues, ids, targets, m);
        let before = view.with(moved_all(view.slots, view.queues, ids, targets, m));
        lemma_untouched(view, ids, targets, m);
        let id = ids[n - 1];
        assert(view.slots.resolves(id));
        assert(before.slots.resolves(id));
        lemma_owned_moved(before, id, targets[n - 1], submission);
    } else {
        assert(view.with((view.slots, view.queues)) == view);
    }
}

proof fn lemma_untouched(
    view: SchedulerView,
    ids: Seq<RequestSlotId>,
    targets: Seq<SlotView>,
    m: nat,
)
    requires
        consistent(view.slots, view.queues),
        movable(view.slots, ids, targets),
        m < ids.len(),
    ensures
        moved_all(view.slots, view.queues, ids, targets, m).0.slot(ids[m as int])
            == view.slots.slot(ids[m as int]),
{
    lemma_moved_all(view.slots, view.queues, ids, targets, m);
    let id = ids[m as int];
    assert(!ids.take(m as int).contains(id)) by {
        let head = ids.take(m as int);
        if head.contains(id) {
            let at = choose|at: int| 0 <= at < head.len() && head[at] == id;
            assert(ids[at] == ids[m as int]);
        }
    }
    assert(view.slots.resolves(id));
}

/// Handing several prepared requests to a submission makes it own them, in order, and
/// takes nothing from another one.
pub proof fn lemma_owned_after_confirmation(
    view: SchedulerView,
    ids: Seq<RequestSlotId>,
    targets: Seq<SlotView>,
    n: nat,
    owner: BackendSubmissionId,
    submission: BackendSubmissionId,
)
    requires
        consistent(view.slots, view.queues),
        movable(view.slots, ids, targets),
        n <= ids.len(),
        forall|i: int|
            #![trigger ids[i]]
            #![trigger targets[i]]
            0 <= i < ids.len() ==> targets[i].lifecycle == RequestLifecycle::InFlight(owner)
                && kind_of(view.slots.slot(ids[i]).lifecycle) is Prepared,
    ensures
        view.with(moved_all(view.slots, view.queues, ids, targets, n)).owned(submission) == (
        if submission == owner {
            view.owned(submission) + ids.take(n as int)
        } else {
            view.owned(submission)
        }),
    decreases n,
{
    if n > 0 {
        let m = (n - 1) as nat;
        lemma_owned_after_confirmation(view, ids, targets, m, owner, submission);
        lemma_moved_all(view.slots, view.queues, ids, targets, m);
        let before = view.with(moved_all(view.slots, view.queues, ids, targets, m));
        lemma_untouched(view, ids, targets, m);
        let id = ids[n - 1];
        assert(view.slots.resolves(id));
        assert(before.slots.resolves(id));
        lemma_owned_moved(before, id, targets[n - 1], submission);
        assert((view.owned(submission) + ids.take(m as int)).push(id) =~= view.owned(submission)
            + ids.take(n as int));
    } else {
        assert(view.with((view.slots, view.queues)) == view);
        assert(view.owned(submission) + ids.take(0) =~= view.owned(submission));
    }
}

proof fn lemma_owned_has(view: SchedulerView, submission: BackendSubmissionId, n: int, at: int)
    requires
        0 <= at < n <= view.queues.in_flight.len(),
        owner_of(view, view.queues.in_flight[at]) == Some(submission),
    ensures
        view.owned_among(submission, n).contains(view.queues.in_flight[at]),
    decreases n,
{
    let ids = view.owned_among(submission, n);
    let head = view.owned_among(submission, n - 1);
    if at == n - 1 {
        assert(ids[head.len() as int] == view.queues.in_flight[at]);
    } else {
        lemma_owned_has(view, submission, n - 1, at);
        let k = choose|k: int| 0 <= k < head.len() && head[k] == view.queues.in_flight[at];
        assert(ids[k] == view.queues.in_flight[at]);
    }
}

/// A submission owns every request in flight that names it.
pub proof fn lemma_owned_contains(
    view: SchedulerView,
    id: RequestSlotId,
    submission: BackendSubmissionId,
)
    requires
        consistent(view.slots, view.queues),
        view.slots.resolves(id),
        owner_of(view, id) == Some(submission),
    ensures
        view.owned(submission).contains(id),
        view.owned(submission).len() > 0,
{
    assert(view.queues.of(kind_of(view.slots.slot(id).lifecycle)).contains(id));
    let flying = view.queues.in_flight;
    let at = choose|at: int| 0 <= at < flying.len() && flying[at] == id;
    lemma_owned_has(view, submission, flying.len() as int, at);
}

proof fn lemma_owns_nothing(view: SchedulerView, submission: BackendSubmissionId, n: int)
    requires
        0 <= n <= view.queues.in_flight.len(),
        forall|at: int|
            0 <= at < view.queues.in_flight.len() ==> owner_of(
                view,
                #[trigger] view.queues.in_flight[at],
            ) != Some(submission),
    ensures
        view.owned_among(submission, n).len() == 0,
    decreases n,
{
    if n > 0 {
        lemma_owns_nothing(view, submission, n - 1);
        assert(owner_of(view, view.queues.in_flight[n - 1]) != Some(submission));
    }
}

/// A submission whose requests have all moved on owns nothing any more.
pub proof fn lemma_released(
    view: SchedulerView,
    submission: BackendSubmissionId,
    targets: Seq<SlotView>,
)
    requires
        view.settled(),
        movable(view.slots, view.owned(submission), targets),
        forall|i: int|
            0 <= i < targets.len() ==> (#[trigger] targets[i]).lifecycle.owner() is None,
    ensures
        view.moved_all(view.owned(submission), targets).filled().owned(submission).len() == 0,
{
    let ids = view.owned(submission);
    let after = view.moved_all(ids, targets);
    lemma_settled_after_moves(view, ids, targets);
    lemma_moved_all(view.slots, view.queues, ids, targets, ids.len());
    assert(ids.take(ids.len() as int) =~= ids);
    assert forall|at: int| 0 <= at < after.queues.in_flight.len() implies owner_of(
        after,
        #[trigger] after.queues.in_flight[at],
    ) != Some(submission) by {
        let id = after.queues.in_flight[at];
        assert(after.queues.of(QueueKind::InFlight).contains(id));
        lemma_member(after, QueueKind::InFlight, id);
        assert(view.slots.resolves(id));
        if ids.contains(id) {
            let k = choose|k: int| 0 <= k < ids.len() && ids[k] == id;
            assert(after.slots.slot(ids[k]) == targets[k]);
        } else {
            assert(after.slots.slot(id) == view.slots.slot(id));
            let kind = kind_of(view.slots.slot(id).lifecycle);
            assert(view.queues.of(kind).contains(id));
            if owner_of(view, id) == Some(submission) {
                let flying = view.queues.in_flight;
                let k = choose|k: int| 0 <= k < flying.len() && flying[k] == id;
                lemma_owned_has(view, submission, flying.len() as int, k);
            }
        }
    }
    lemma_owns_nothing(after, submission, after.queues.in_flight.len() as int);
    lemma_owned_filled(after, submission);
}

/// Filling free places keeps which identities name a request and whose they are, and
/// every request that was not waiting as it was.
pub proof fn lemma_filled_slots(view: SchedulerView)
    requires
        view.settled(),
    ensures
        forall|id: RequestSlotId|
            #![trigger view.filled().slots.resolves(id)]
            view.filled().slots.resolves(id) == view.slots.resolves(id),
        forall|id: RequestSlotId|
            #![trigger view.filled().slots.slot(id)]
            view.slots.resolves(id) ==> view.filled().slots.slot(id).request == view.slots.slot(
                id,
            ).request && (!(view.slots.slot(id).lifecycle is Waiting) ==> view.filled().slots.slot(
                id,
            ) == view.slots.slot(id)),
    decreases view.queues.waiting.len(),
{
    if view.queues.active() < view.config.max_active_requests && view.queues.waiting.len() > 0 {
        lemma_promoted(view);
        let next = view.promoted();
        let id = view.queues.waiting[0];
        assert(view.queues.of(QueueKind::Waiting).contains(id));
        lemma_member(view, QueueKind::Waiting, id);
        lemma_with_slot(
            view.slots,
            id,
            view.slots.slot(id).entered(RequestLifecycle::Runnable),
        );
        lemma_filled_slots(next);
        assert forall|other: RequestSlotId|
            #![trigger view.filled().slots.slot(other)]
            view.slots.resolves(other) implies view.filled().slots.slot(other).request
            == view.slots.slot(other).request && (!(view.slots.slot(
            other,
        ).lifecycle is Waiting) ==> view.filled().slots.slot(other) == view.slots.slot(other)) by {
            assert(next.slots.resolves(other));
            assert(view.filled() == next.filled());
            if other != id {
                assert(next.slots.slot(other) == view.slots.slot(other));
            }
        }
        assert forall|other: RequestSlotId|
            #![trigger view.filled().slots.resolves(other)]
            view.filled().slots.resolves(other) == view.slots.resolves(other) by {
            assert(view.filled() == next.filled());
            assert(next.filled().slots.resolves(other) == next.slots.resolves(other));
        }
    }
}

/// Filling free places changes nothing of what a submission owns.
pub proof fn lemma_owned_filled(view: SchedulerView, submission: BackendSubmissionId)
    requires
        view.settled(),
    ensures
        view.filled().owned(submission) == view.owned(submission),
    decreases view.queues.waiting.len(),
{
    if view.queues.active() < view.config.max_active_requests && view.queues.waiting.len() > 0 {
        lemma_promoted(view);
        let id = view.queues.waiting[0];
        assert(view.queues.of(QueueKind::Waiting).contains(id));
        lemma_member(view, QueueKind::Waiting, id);
        lemma_owned_moved(
            view,
            id,
            view.slots.slot(id).entered(RequestLifecycle::Runnable),
            submission,
        );
        lemma_owned_filled(view.promoted(), submission);
    }
}

} // verus!
