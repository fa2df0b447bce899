//! The queues through which resident requests pass.

use crate::engine::serving::{
    lemma_with_slot, RequestLifecycle, RequestSlotId, RequestSlotsView, SlotView,
};
use vstd::prelude::*;

verus! {

/// Which queue a request stands in; its lifecycle decides.
#[derive(Clone, Copy, Debug, Hash, PartialEq, Eq, Structural)]
pub enum QueueKind {
    /// Admitted, with no place among the active requests yet.
    Waiting,
    /// Active and ready to be scheduled.
    Runnable,
    /// Active, its state taken out for a submission that is being made.
    Prepared,
    /// Active, its state owned by a backend submission.
    InFlight,
    /// Ended, and resident until it is reclaimed.
    Terminal,
}

/// The queue of a lifecycle.
pub open spec fn kind_of(lifecycle: RequestLifecycle) -> QueueKind {
    match lifecycle {
        RequestLifecycle::Waiting => QueueKind::Waiting,
        RequestLifecycle::Runnable => QueueKind::Runnable,
        RequestLifecycle::Submitting => QueueKind::Prepared,
        RequestLifecycle::InFlight(_) => QueueKind::InFlight,
        RequestLifecycle::Cancelling(_) => QueueKind::InFlight,
        RequestLifecycle::Completed => QueueKind::Terminal,
        RequestLifecycle::Cancelled => QueueKind::Terminal,
        RequestLifecycle::Failed => QueueKind::Terminal,
    }
}

/// Whether a queue holds active requests.
pub open spec fn active_kind(kind: QueueKind) -> bool {
    kind is Runnable || kind is Prepared || kind is InFlight
}

/// Queues of slot identities, each in order of arrival.
#[derive(Debug)]
pub struct Queues {
    pub waiting: Vec<RequestSlotId>,
    pub runnable: Vec<RequestSlotId>,
    pub prepared: Vec<RequestSlotId>,
    pub in_flight: Vec<RequestSlotId>,
    pub terminal: Vec<RequestSlotId>,
}

/// What the queues hold.
#[verifier::ext_equal]
pub struct QueuesView {
    pub waiting: Seq<RequestSlotId>,
    pub runnable: Seq<RequestSlotId>,
    pub prepared: Seq<RequestSlotId>,
    pub in_flight: Seq<RequestSlotId>,
    pub terminal: Seq<RequestSlotId>,
}

impl View for Queues {
    type V = QueuesView;

    open spec fn view(&self) -> QueuesView {
        QueuesView {
            waiting: self.waiting@,
            runnable: self.runnable@,
            prepared: self.prepared@,
            in_flight: self.in_flight@,
            terminal: self.terminal@,
        }
    }
}

impl QueuesView {
    /// Queues that hold nothing.
    pub open spec fn empty() -> QueuesView {
        QueuesView {
            waiting: Seq::empty(),
            runnable: Seq::empty(),
            prepared: Seq::empty(),
            in_flight: Seq::empty(),
            terminal: Seq::empty(),
        }
    }

    /// One of the queues.
    pub open spec fn of(self, kind: QueueKind) -> Seq<RequestSlotId> {
        match kind {
            QueueKind::Waiting => self.waiting,
            QueueKind::Runnable => self.runnable,
            QueueKind::Prepared => self.prepared,
            QueueKind::InFlight => self.in_flight,
            QueueKind::Terminal => self.terminal,
        }
    }

    /// The queues with one of them replaced.
    pub open spec fn with(self, kind: QueueKind, queue: Seq<RequestSlotId>) -> QueuesView {
        match kind {
            QueueKind::Waiting => QueuesView { waiting: queue, ..self },
            QueueKind::Runnable => QueuesView { runnable: queue, ..self },
            QueueKind::Prepared => QueuesView { prepared: queue, ..self },
            QueueKind::InFlight => QueuesView { in_flight: queue, ..self },
            QueueKind::Terminal => QueuesView { terminal: queue, ..self },
        }
    }

    /// The queues after an identity left one of them for the end of another.
    pub open spec fn moved(self, id: RequestSlotId, from: QueueKind, to: QueueKind) -> QueuesView {
        if from == to {
            self
        } else {
            let left = self.of(from);
            let shorter = self.with(from, left.remove(left.index_of(id)));
            shorter.with(to, shorter.of(to).push(id))
        }
    }

    /// How many requests are active.
    pub open spec fn active(self) -> int {
        (self.runnable.len() + self.prepared.len() + self.in_flight.len()) as int
    }

    /// How many requests stand in a queue.
    pub open spec fn total(self) -> int {
        self.waiting.len() + self.active() + self.terminal.len()
    }
}

/// Whether a resident request is in the shape that its queue asks for: it owns its state
/// unless a submission does, its prompt is not overrun, only generated tokens were read
/// back, and output is still owed while it may be scheduled or is in flight.
pub open spec fn fits(slot: SlotView) -> bool {
    let kind = kind_of(slot.lifecycle);
    &&& (kind is Prepared || kind is InFlight) == (slot.state is None)
    &&& slot.progress.prompt_processed <= slot.progress.prompt_tokens
    &&& slot.progress.decode_processed <= slot.progress.generated_tokens
    &&& !(kind is Terminal) ==> slot.progress.generated_tokens
        < slot.request.semantics.max_output_tokens
}

/// Whether an identity belongs into a queue.
pub open spec fn belongs(slots: RequestSlotsView, id: RequestSlotId, kind: QueueKind) -> bool {
    &&& slots.resolves(id)
    &&& kind_of(slots.slot(id).lifecycle) == kind
    &&& fits(slots.slot(id))
}

/// Whether a queue holds only what belongs into it, each identity once.
pub open spec fn queue_wf(
    slots: RequestSlotsView,
    queue: Seq<RequestSlotId>,
    kind: QueueKind,
) -> bool {
    &&& forall|i: int| 0 <= i < queue.len() ==> belongs(slots, #[trigger] queue[i], kind)
    &&& queue.no_duplicates()
}

/// Whether every resident request stands in the queue of its lifecycle.
pub open spec fn all_queued(slots: RequestSlotsView, queues: QueuesView) -> bool {
    forall|id: RequestSlotId| #[trigger]
        slots.resolves(id) ==> queues.of(kind_of(slots.slot(id).lifecycle)).contains(id)
}

/// Whether the queues partition the resident requests by their lifecycle.
pub open spec fn consistent(slots: RequestSlotsView, queues: QueuesView) -> bool {
    &&& slots.wf()
    &&& queue_wf(slots, queues.waiting, QueueKind::Waiting)
    &&& queue_wf(slots, queues.runnable, QueueKind::Runnable)
    &&& queue_wf(slots, queues.prepared, QueueKind::Prepared)
    &&& queue_wf(slots, queues.in_flight, QueueKind::InFlight)
    &&& queue_wf(slots, queues.terminal, QueueKind::Terminal)
    &&& all_queued(slots, queues)
    &&& queues.total() == slots.occupied()
}

/// A consistent set of queues, seen through any one of them.
pub proof fn lemma_consistent_kind(slots: RequestSlotsView, queues: QueuesView, kind: QueueKind)
    requires
        consistent(slots, queues),
    ensures
        queue_wf(slots, queues.of(kind), kind),
{
}

/// Where an identity stands in a queue without repetitions is determined.
pub proof fn lemma_index(queue: Seq<RequestSlotId>, k: int)
    requires
        queue.no_duplicates(),
        0 <= k < queue.len(),
    ensures
        queue.index_of(queue[k]) == k,
{
    let found = queue.index_of(queue[k]);
    assert(queue[k] == queue[k]);
    assert(0 <= found < queue.len() && queue[found] == queue[k]);
}

proof fn lemma_removed_queue(queue: Seq<RequestSlotId>, k: int)
    requires
        queue.no_duplicates(),
        0 <= k < queue.len(),
    ensures
        queue.remove(k).no_duplicates(),
        queue.remove(k).len() == queue.len() - 1,
        !queue.remove(k).contains(queue[k]),
        forall|id: RequestSlotId|
            id != queue[k] ==> #[trigger] queue.remove(k).contains(id) == queue.contains(id),
{
    let shorter = queue.remove(k);
    assert forall|i: int| 0 <= i < shorter.len() implies #[trigger] shorter[i] == (if i < k {
        queue[i]
    } else {
        queue[i + 1]
    }) by {}
    assert forall|id: RequestSlotId| id != queue[k] implies #[trigger] shorter.contains(id)
        == queue.contains(id) by {
        if queue.contains(id) {
            let at = choose|at: int| 0 <= at < queue.len() && queue[at] == id;
            if at < k {
                assert(shorter[at] == id);
            } else {
                assert(shorter[at - 1] == id);
            }
        }
        if shorter.contains(id) {
            let at = choose|at: int| 0 <= at < shorter.len() && shorter[at] == id;
            if at < k {
                assert(queue[at] == id);
            } else {
                assert(queue[at + 1] == id);
            }
        }
    }
}

proof fn lemma_pushed_queue(queue: Seq<RequestSlotId>, id: RequestSlotId)
    requires
        queue.no_duplicates(),
        !queue.contains(id),
    ensures
        queue.push(id).no_duplicates(),
        queue.push(id).contains(id),
        forall|other: RequestSlotId|
            other != id ==> #[trigger] queue.push(id).contains(other) == queue.contains(other),
{
    let longer = queue.push(id);
    assert(longer[queue.len() as int] == id);
    assert forall|other: RequestSlotId| other != id implies #[trigger] longer.contains(other)
        == queue.contains(other) by {
        if queue.contains(other) {
            let at = choose|at: int| 0 <= at < queue.len() && queue[at] == other;
            assert(longer[at] == other);
        }
        if longer.contains(other) {
            let at = choose|at: int| 0 <= at < longer.len() && longer[at] == other;
            assert(queue[at] == other);
        }
    }
}

/// A queue that does not hold a changed slot stays as it should be.
proof fn lemma_queue_unaffected(
    slots: RequestSlotsView,
    id: RequestSlotId,
    slot: SlotView,
    queue: Seq<RequestSlotId>,
    kind: QueueKind,
)
    requires
        slots.wf(),
        slots.resolves(id),
        slot.id == id,
        slot.request.id == slots.slot(id).request.id,
        queue_wf(slots, queue, kind),
        !queue.contains(id),
    ensures
        queue_wf(slots.with_slot(id, slot), queue, kind),
{
    lemma_with_slot(slots, id, slot);
    let changed = slots.with_slot(id, slot);
    assert forall|i: int| 0 <= i < queue.len() implies belongs(
        changed,
        #[trigger] queue[i],
        kind,
    ) by {
        assert(queue.contains(queue[i]));
        assert(belongs(slots, queue[i], kind));
        assert(changed.resolves(queue[i]));
        assert(changed.slot(queue[i]) == slots.slot(queue[i]));
    }
}

/// Changing a resident request, and moving it to the queue of its new lifecycle, keeps the
/// queues consistent.
pub proof fn lemma_moved(
    slots: RequestSlotsView,
    queues: QueuesView,
    id: RequestSlotId,
    slot: SlotView,
)
    requires
        consistent(slots, queues),
        slots.resolves(id),
        slot.id == id,
        slot.request.id == slots.slot(id).request.id,
        fits(slot),
    ensures
        ({
            let from = kind_of(slots.slot(id).lifecycle);
            let to = kind_of(slot.lifecycle);
            let after = queues.moved(id, from, to);
            &&& consistent(slots.with_slot(id, slot), after)
            &&& queues.of(from).contains(id)
            &&& after.active() == queues.active() - (if active_kind(from) {
                1int
            } else {
                0
            }) + (if active_kind(to) {
                1int
            } else {
                0
            })
            &&& after.waiting.len() == queues.waiting.len() - (if from is Waiting {
                1int
            } else {
                0
            }) + (if to is Waiting {
                1int
            } else {
                0
            })
            &&& after.total() == queues.total()
            &&& !(from is Waiting) && !(to is Waiting) ==> after.waiting == queues.waiting
        }),
{
    let from = kind_of(slots.slot(id).lifecycle);
    let to = kind_of(slot.lifecycle);
    let after = queues.moved(id, from, to);
    let changed = slots.with_slot(id, slot);
    lemma_with_slot(slots, id, slot);
    lemma_consistent_kind(slots, queues, from);
    let left = queues.of(from);
    assert(left.contains(id));
    let k = left.index_of(id);
    assert(0 <= k < left.len() && left[k] == id);
    assert forall|kind: QueueKind| kind != from implies !#[trigger] queues.of(kind).contains(
        id,
    ) by {
        lemma_consistent_kind(slots, queues, kind);
        if queues.of(kind).contains(id) {
            let at = choose|at: int| 0 <= at < queues.of(kind).len() && queues.of(kind)[at] == id;
            assert(belongs(slots, queues.of(kind)[at], kind));
        }
    }
    lemma_removed_queue(left, k);
    if from == to {
        assert forall|kind: QueueKind| queue_wf(changed, #[trigger] queues.of(kind), kind) by {
            lemma_consistent_kind(slots, queues, kind);
            if kind != from {
                lemma_queue_unaffected(slots, id, slot, queues.of(kind), kind);
            } else {
                assert forall|i: int| 0 <= i < left.len() implies belongs(
                    changed,
                    #[trigger] left[i],
                    kind,
                ) by {
                    assert(belongs(slots, left[i], kind));
                    assert(changed.resolves(left[i]));
                    if left[i] != id {
                        assert(changed.slot(left[i]) == slots.slot(left[i]));
                    }
                }
            }
        }
        assert forall|other: RequestSlotId| #[trigger] changed.resolves(other) implies queues.of(
            kind_of(changed.slot(other).lifecycle),
        ).contains(other) by {
            assert(slots.resolves(other));
            if other != id {
                assert(changed.slot(other) == slots.slot(other));
            }
        }
        lemma_all_kinds(changed, queues);
    } else {
        let shorter = left.remove(k);
        let target = queues.of(to);
        assert(!target.contains(id));
        lemma_pushed_queue(target, id);
        assert(after.of(from) == shorter);
        assert(after.of(to) == target.push(id));
        assert forall|kind: QueueKind| queue_wf(changed, #[trigger] after.of(kind), kind) by {
            lemma_consistent_kind(slots, queues, kind);
            if kind == from {
                assert forall|i: int| 0 <= i < shorter.len() implies belongs(
                    slots,
                    #[trigger] shorter[i],
                    kind,
                ) by {
                    let at = if i < k {
                        i
                    } else {
                        i + 1
                    };
                    assert(shorter[i] == left[at]);
                    assert(belongs(slots, left[at], kind));
                }
                lemma_queue_unaffected(slots, id, slot, shorter, kind);
            } else if kind == to {
                lemma_queue_unaffected(slots, id, slot, target, kind);
                let longer = target.push(id);
                assert(changed.resolves(id));
                assert forall|i: int| 0 <= i < longer.len() implies belongs(
                    changed,
                    #[trigger] longer[i],
                    kind,
                ) by {
                    if i < target.len() {
                        assert(longer[i] == target[i]);
                        assert(belongs(changed, target[i], kind));
                    } else {
                        assert(longer[i] == id);
                    }
                }
            } else {
                assert(after.of(kind) == queues.of(kind));
                lemma_queue_unaffected(slots, id, slot, queues.of(kind), kind);
            }
        }
        assert forall|other: RequestSlotId| #[trigger] changed.resolves(other) implies after.of(
            kind_of(changed.slot(other).lifecycle),
        ).contains(other) by {
            assert(slots.resolves(other));
            if other != id {
                assert(changed.slot(other) == slots.slot(other));
                let kind = kind_of(slots.slot(other).lifecycle);
                assert(queues.of(kind).contains(other));
                if kind == from {
                    assert(shorter.contains(other));
                } else if kind == to {
                    assert(target.push(id).contains(other));
                } else {
                    assert(after.of(kind) == queues.of(kind));
                }
            }
        }
        lemma_all_kinds(changed, after);
    }
}

proof fn lemma_all_kinds(slots: RequestSlotsView, queues: QueuesView)
    requires
        forall|kind: QueueKind| queue_wf(slots, #[trigger] queues.of(kind), kind),
    ensures
        queue_wf(slots, queues.waiting, QueueKind::Waiting),
        queue_wf(slots, queues.runnable, QueueKind::Runnable),
        queue_wf(slots, queues.prepared, QueueKind::Prepared),
        queue_wf(slots, queues.in_flight, QueueKind::InFlight),
        queue_wf(slots, queues.terminal, QueueKind::Terminal),
{
    assert(queue_wf(slots, queues.of(QueueKind::Waiting), QueueKind::Waiting));
    assert(queue_wf(slots, queues.of(QueueKind::Runnable), QueueKind::Runnable));
    assert(queue_wf(slots, queues.of(QueueKind::Prepared), QueueKind::Prepared));
    assert(queue_wf(slots, queues.of(QueueKind::InFlight), QueueKind::InFlight));
    assert(queue_wf(slots, queues.of(QueueKind::Terminal), QueueKind::Terminal));
}

/// The table and the queues after the first `n` of several requests changed, each to a
/// given value and into the queue of its new lifecycle.
pub open spec fn moved_all(
    slots: RequestSlotsView,
    queues: QueuesView,
    ids: Seq<RequestSlotId>,
    targets: Seq<SlotView>,
    n: nat,
) -> (RequestSlotsView, QueuesView)
    decreases n,
{
    if n == 0 {
        (slots, queues)
    } else {
        let before = moved_all(slots, queues, ids, targets, (n - 1) as nat);
        let id = ids[n - 1];
        let slot = targets[n - 1];
        (
            before.0.with_slot(id, slot),
            before.1.moved(id, kind_of(before.0.slot(id).lifecycle), kind_of(slot.lifecycle)),
        )
    }
}

/// Whether changes to several requests may be applied: distinct resident requests, each
/// changed into something that fits and that is active only where it was before.
pub open spec fn movable(
    slots: RequestSlotsView,
    ids: Seq<RequestSlotId>,
    targets: Seq<SlotView>,
) -> bool {
    &&& ids.no_duplicates()
    &&& ids.len() == targets.len()
    &&& forall|i: int|
        #![trigger ids[i]]
        #![trigger targets[i]]
        0 <= i < ids.len() ==> {
            &&& slots.resolves(ids[i])
            &&& targets[i].id == ids[i]
            &&& targets[i].request == slots.slot(ids[i]).request
            &&& fits(targets[i])
            &&& active_kind(kind_of(slots.slot(ids[i]).lifecycle))
            &&& !(kind_of(targets[i].lifecycle) is Waiting)
        }
}

/// Changing several active requests keeps the queues consistent, leaves every other
/// request alone, and adds none to the active ones.
pub proof fn lemma_moved_all(
    slots: RequestSlotsView,
    queues: QueuesView,
    ids: Seq<RequestSlotId>,
    targets: Seq<SlotView>,
    n: nat,
)
    requires
        consistent(slots, queues),
        movable(slots, ids, targets),
        n <= ids.len(),
    ensures
        ({
            let after = moved_all(slots, queues, ids, targets, n);
            &&& consistent(after.0, after.1)
            &&& after.1.active() <= queues.active()
            &&& after.1.waiting == queues.waiting
            &&& after.0.occupied() == slots.occupied()
            &&& forall|id: RequestSlotId|
                #![trigger after.0.resolves(id)]
                after.0.resolves(id) == slots.resolves(id)
            &&& forall|id: RequestSlotId|
                #![trigger after.0.slot(id)]
                slots.resolves(id) && !ids.take(n as int).contains(id) ==> after.0.slot(id)
                    == slots.slot(id)
            &&& forall|i: int|
                0 <= i < n ==> after.0.slot(#[trigger] ids[i]) == targets[i]
            &&& (forall|i: int|
                0 <= i < n ==> active_kind(kind_of((#[trigger] targets[i]).lifecycle)))
                ==> after.1.active() == queues.active()
        }),
    decreases n,
{
    if n > 0 {
        let m = (n - 1) as nat;
        lemma_moved_all(slots, queues, ids, targets, m);
        let before = moved_all(slots, queues, ids, targets, m);
        let after = moved_all(slots, queues, ids, targets, n);
        let id = ids[n - 1];
        let slot = targets[n - 1];
        assert(!ids.take(m as int).contains(id)) by {
            if ids.take(m as int).contains(id) {
                let at = choose|at: int|
                    0 <= at < ids.take(m as int).len() && ids.take(m as int)[at] == id;
                assert(ids[at] == ids[n - 1]);
            }
        }
        assert(slots.resolves(id));
        assert(before.0.resolves(id));
        assert(before.0.slot(id) == slots.slot(id));
        lemma_moved(before.0, before.1, id, slot);
        lemma_with_slot(before.0, id, slot);
        assert forall|other: RequestSlotId|
            #![trigger after.0.slot(other)]
            slots.resolves(other) && !ids.take(n as int).contains(other) implies after.0.slot(other)
            == slots.slot(other) by {
            assert(other != id) by {
                assert(ids.take(n as int)[n - 1] == id);
                if other == id {
                    assert(ids.take(n as int).contains(other));
                }
            }
            assert(!ids.take(m as int).contains(other)) by {
                if ids.take(m as int).contains(other) {
                    let at = choose|at: int|
                        0 <= at < ids.take(m as int).len() && ids.take(m as int)[at] == other;
                    assert(ids.take(n as int)[at] == other);
                }
            }
            assert(before.0.resolves(other));
            assert(before.0.slot(other) == slots.slot(other));
        }
        assert forall|i: int| 0 <= i < n implies after.0.slot(#[trigger] ids[i]) == targets[i] by {
            if i < m {
                assert(ids[i] != id);
                assert(slots.resolves(ids[i]));
                assert(before.0.resolves(ids[i]));
                assert(before.0.slot(ids[i]) == targets[i]);
            }
        }
        if forall|i: int|
            0 <= i < n ==> active_kind(kind_of((#[trigger] targets[i]).lifecycle)) {
            assert(forall|i: int|
                0 <= i < m ==> active_kind(kind_of((#[trigger] targets[i]).lifecycle)));
            assert(active_kind(kind_of(targets[n - 1].lifecycle)));
        }
    }
}

impl Queues {
    /// Queues that hold nothing.
    #[must_use]
    pub fn new() -> (r: Self)
        ensures
            r@ == QueuesView::empty(),
    {
        Queues {
            waiting: Vec::new(),
            runnable: Vec::new(),
            prepared: Vec::new(),
            in_flight: Vec::new(),
            terminal: Vec::new(),
        }
    }

    /// How many requests are active.
    #[must_use]
    pub fn active(&self) -> (r: usize)
        requires
            self@.active() <= usize::MAX,
        ensures
            r == self@.active(),
    {
        self.runnable.len() + self.prepared.len() + self.in_flight.len()
    }

    /// Take an identity out of one queue and put it at the end of another.
    pub fn relocate(&mut self, id: RequestSlotId, from: QueueKind, to: QueueKind)
        requires
            from != to,
            old(self)@.of(from).contains(id),
            old(self)@.of(from).no_duplicates(),
        ensures
            final(self)@ == old(self)@.moved(id, from, to),
    {
        match from {
            QueueKind::Waiting => take_out(&mut self.waiting, id),
            QueueKind::Runnable => take_out(&mut self.runnable, id),
            QueueKind::Prepared => take_out(&mut self.prepared, id),
            QueueKind::InFlight => take_out(&mut self.in_flight, id),
            QueueKind::Terminal => take_out(&mut self.terminal, id),
        }
        match to {
            QueueKind::Waiting => self.waiting.push(id),
            QueueKind::Runnable => self.runnable.push(id),
            QueueKind::Prepared => self.prepared.push(id),
            QueueKind::InFlight => self.in_flight.push(id),
            QueueKind::Terminal => self.terminal.push(id),
        }
    }
}

/// Whether a queue holds an identity.
#[must_use]
pub fn queue_contains(queue: &Vec<RequestSlotId>, id: RequestSlotId) -> (r: bool)
    ensures
        r == queue@.contains(id),
{
    let mut index: usize = 0;
    while index < queue.len()
        invariant
            index <= queue@.len(),
            forall|i: int| 0 <= i < index ==> #[trigger] queue@[i] != id,
        decreases queue.len() - index,
    {
        if queue[index] == id {
            assert(queue@[index as int] == id);
            return true;
        }
        index += 1;
    }
    false
}

fn take_out(queue: &mut Vec<RequestSlotId>, id: RequestSlotId)
    requires
        old(queue)@.contains(id),
        old(queue)@.no_duplicates(),
    ensures
        final(queue)@ == old(queue)@.remove(old(queue)@.index_of(id)),
{
    let mut index: usize = 0;
    while queue[index] != id
        invariant
            index < queue@.len(),
            queue@ == old(queue)@,
            queue@.contains(id),
            forall|i: int| 0 <= i < index ==> #[trigger] queue@[i] != id,
        decreases queue.len() - index,
    {
        proof {
            let at = choose|at: int| 0 <= at < queue@.len() && queue@[at] == id;
            assert(at > index);
        }
        index += 1;
    }
    proof {
        lemma_index(queue@, index as int);
    }
    queue.remove(index);
}

} // verus!
