//! What pools and publication sources account for.

use crate::foundation::parameter::{one_version, ParameterMaterialization, ParameterVersion};
use crate::foundation::plan::{
    first_defect, leaves_topology, repeats_stage, stage_defect, PlanError, StagePlacement,
    StagePlacementView,
};
use crate::foundation::pool::{charges, LeaseView, PoolView, ReserveError};
use crate::foundation::readiness::{
    add_owner, keys_of, release_owner, ReadinessView, ReadinessWaitView, Subscription,
};
use crate::foundation::topology::{knows, ComputeDevice};
use vstd::prelude::*;

verus! {

/// A reservation is refused exactly where it is beyond the capacity, the pool is closed, or
/// fewer bytes are free, and for the first of these; otherwise it is granted.
pub proof fn law_refused_reservations(pool: PoolView, bytes: u64)
    requires
        pool.wf(),
    ensures
        ({
            let free = pool.capacity - pool.granted;
            &&& pool.refusal(bytes) is None <==> bytes <= free && !pool.closed
            &&& pool.refusal(bytes) == Some(
                ReserveError::TooLarge { requested: bytes, capacity: pool.capacity },
            ) <==> bytes > pool.capacity
            &&& pool.refusal(bytes) == Some(ReserveError::Closed) <==> bytes <= pool.capacity
                && pool.closed
            &&& pool.refusal(bytes) == Some(
                ReserveError::Exhausted { requested: bytes, available: free as u64 },
            ) <==> bytes <= pool.capacity && !pool.closed && bytes > free
        }),
{
}

/// A grant is a lease of this pool for the bytes asked for, under the next identity, which is
/// not given out again.
pub proof fn law_granted_leases(pool: PoolView, bytes: u64)
    requires
        pool.wf(),
        pool.refusal(bytes) is None,
        pool.next_allocation < u64::MAX,
    ensures
        pool.granted_lease(bytes).pool == pool.readiness.source,
        pool.granted_lease(bytes).allocation == pool.next_allocation,
        pool.granted_lease(bytes).bytes == bytes,
        pool.reserved(bytes).next_allocation == pool.next_allocation + 1,
        pool.reserved(bytes).granted == pool.granted + bytes,
        pool.reserved(bytes).closed == pool.closed,
        pool.reserved(bytes).readiness == pool.readiness,
{
}

/// A release gives back its bytes, and never more than were granted; it publishes where it
/// gives any back.
pub proof fn law_released_bytes(pool: PoolView, bytes: u64)
    ensures
        bytes <= pool.granted ==> pool.released(bytes).granted == pool.granted - bytes,
        bytes > pool.granted ==> pool.released(bytes).granted == 0,
        pool.released(bytes).capacity == pool.capacity,
        pool.released(bytes).closed == pool.closed,
        pool.released(bytes).next_allocation == pool.next_allocation,
        bytes == 0 ==> pool.released(bytes).readiness == pool.readiness,
        bytes > 0 ==> pool.released(bytes).readiness == pool.readiness.published(),
{
}

/// Leases charge their bytes together.
pub proof fn law_charges_add_up(live: Seq<LeaseView>, lease: LeaseView)
    ensures
        charges(Seq::empty()) == 0,
        charges(live.push(lease)) == charges(live) + lease.bytes,
{
    assert(live.push(lease).drop_last() =~= live);
}

/// A publication moves the epoch on by one, wakes every armed owner once and in the order of
/// arming, and leaves none armed.
pub proof fn law_publications(source: ReadinessView)
    ensures
        source.published().epoch == (if source.epoch == u64::MAX {
            0
        } else {
            source.epoch + 1
        }),
        source.published().source == source.source,
        source.published().armed.len() == 0,
        source.published().woken.len() == source.woken.len() + source.armed.len(),
        source.published().woken.take(source.woken.len() as int) == source.woken,
        forall|i: int|
            0 <= i < source.armed.len() ==> #[trigger] source.published().woken[source.woken.len()
                + i] == source.armed[i].key,
        source.published().next_subscription == source.next_subscription,
{
    assert(source.published().woken.take(source.woken.len() as int) =~= source.woken);
}

/// A registration is changed exactly where its own source has published since.
pub proof fn law_changed_registrations(wait: ReadinessWaitView, source: ReadinessView)
    ensures
        wait.changed(source) <==> wait.source == source.source && wait.observed != source.epoch,
        source.registered().source == source.source,
        source.registered().observed == source.epoch,
        source.registered().notification is None,
{
}

/// Arming an unchanged registration adds one owner behind the others under a new identity;
/// a changed one wakes at once and is not armed; an owner that is armed already is not armed
/// again.
pub proof fn law_arming(wait: ReadinessWaitView, source: ReadinessView, key: u64)
    ensures
        ({
            let again = wait.notification is Some && wait.notification->Some_0.1 == key;
            let after = wait.source_armed_with(source, key);
            let kept = source.let_go(wait.notification).armed;
            &&& again ==> after == source && wait.armed_with(source, key) == wait
            &&& !again ==> {
                &&& wait.armed_with(source, key).notification == Some(
                    (source.next_subscription, key),
                )
                &&& wait.armed_with(source, key).observed == wait.observed
                &&& wait.armed_with(source, key).source == wait.source
                &&& after.epoch == source.epoch
                &&& wait.changed(source) ==> after.woken == source.woken.push(key) && after.armed
                    == kept
                &&& !wait.changed(source) ==> after.woken == source.woken && after.armed.len()
                    == kept.len() + 1 && after.armed.drop_last() == kept && after.armed.last().key
                    == key && after.armed.last().id == source.next_subscription
                    && after.armed.last().owners == 1
            }
        }),
{
    let kept = source.let_go(wait.notification).armed;
    let entry = Subscription { id: source.next_subscription, key, owners: 1 };
    assert(kept.push(entry).drop_last() =~= kept);
}

/// Letting go takes one owner from the first subscription of that identity, and the
/// subscription with its last owner; every other one stays as it is, in its place.
pub proof fn law_letting_go(armed: Seq<Subscription>, id: u64, at: int)
    requires
        0 <= at < armed.len(),
        armed[at].id == id,
        forall|j: int| 0 <= j < at ==> (#[trigger] armed[j]).id != id,
    ensures
        armed[at].owners <= 1 ==> release_owner(armed, id) == armed.remove(at),
        armed[at].owners > 1 ==> {
            let left = release_owner(armed, id);
            &&& left.len() == armed.len()
            &&& left[at].id == id
            &&& left[at].key == armed[at].key
            &&& left[at].owners == armed[at].owners - 1
            &&& forall|j: int| 0 <= j < armed.len() && j != at ==> #[trigger] left[j] == armed[j]
        },
    decreases armed.len(),
{
    if at == 0 {
        assert(armed.drop_first() =~= armed.remove(0));
    } else {
        assert(armed[0].id != id);
        let rest = armed.drop_first();
        assert forall|j: int| 0 <= j < at - 1 implies (#[trigger] rest[j]).id != id by {
            assert(rest[j] == armed[j + 1]);
        }
        law_letting_go(rest, id, at - 1);
        if armed[at].owners <= 1 {
            assert(seq![armed[0]] + rest.remove(at - 1) =~= armed.remove(at));
        } else {
            let left = release_owner(armed, id);
            let shorter = release_owner(rest, id);
            assert(left =~= seq![armed[0]] + shorter);
            assert forall|j: int| 0 <= j < armed.len() && j != at implies #[trigger] left[j]
                == armed[j] by {
                if j > 0 {
                    assert(left[j] == shorter[j - 1]);
                    assert(shorter[j - 1] == rest[j - 1]);
                }
            }
            assert(left[at] == shorter[at - 1]);
        }
    }
}

/// Letting go of an identity that is not armed changes nothing.
pub proof fn law_letting_go_of_nothing(armed: Seq<Subscription>, id: u64)
    requires
        forall|j: int| 0 <= j < armed.len() ==> (#[trigger] armed[j]).id != id,
    ensures
        release_owner(armed, id) == armed,
    decreases armed.len(),
{
    if armed.len() > 0 {
        assert(armed[0].id != id);
        let rest = armed.drop_first();
        assert forall|j: int| 0 <= j < rest.len() implies (#[trigger] rest[j]).id != id by {
            assert(rest[j] == armed[j + 1]);
        }
        law_letting_go_of_nothing(rest, id);
        assert(seq![armed[0]] + rest =~= armed);
    }
}

/// A further owner counts on the subscription of its identity and on no other.
pub proof fn law_further_owners(armed: Seq<Subscription>, id: u64, i: int)
    requires
        0 <= i < armed.len(),
    ensures
        add_owner(armed, id).len() == armed.len(),
        add_owner(armed, id)[i].id == armed[i].id,
        add_owner(armed, id)[i].key == armed[i].key,
        add_owner(armed, id)[i].owners == armed[i].owners + if armed[i].id == id
            && armed[i].owners < u64::MAX {
            1int
        } else {
            0
        },
        keys_of(armed).len() == armed.len(),
        keys_of(armed)[i] == armed[i].key,
{
}

/// A stage leaves a topology exactly where one of its devices is none of the topology's.
pub proof fn law_stages_outside_a_topology(
    stage: StagePlacementView,
    devices: Seq<ComputeDevice>,
    k: int,
)
    requires
        0 <= k < stage.devices.len(),
    ensures
        !leaves_topology(stage, devices) ==> exists|i: int|
            0 <= i < devices.len() && (#[trigger] devices[i]).id@ == stage.devices[k]@,
        (forall|i: int| 0 <= i < devices.len() ==> (#[trigger] devices[i]).id@
            != stage.devices[k]@) ==> leaves_topology(stage, devices),
{
    if !leaves_topology(stage, devices) {
        assert(knows(devices, stage.devices[k]@));
    }
    if forall|i: int| 0 <= i < devices.len() ==> (#[trigger] devices[i]).id@
        != stage.devices[k]@ {
        assert(!knows(devices, stage.devices[k]@));
    }
}

/// Materializations are of one version where each of them is.
pub proof fn law_one_version_of_all(
    version: ParameterVersion,
    materializations: Seq<ParameterMaterialization>,
    i: int,
)
    requires
        one_version(version, materializations),
        0 <= i < materializations.len(),
    ensures
        materializations[i]@.version == version,
{
}

/// Why a plan is refused: a stage that an earlier one is too, or a stage that leaves the
/// topology, and that stage is named.
pub proof fn law_refused_plans(stages: Seq<StagePlacement>, devices: Seq<ComputeDevice>, from: int)
    requires
        0 <= from <= stages.len(),
    ensures
        first_defect(stages, devices, from) matches Some(error) ==> exists|i: int|
            from <= i < stages.len() && match error {
                PlanError::DuplicateStage(stage) => (#[trigger] stages[i])@.stage == stage
                    && exists|j: int| 0 <= j < i && (#[trigger] stages[j])@.stage == stage,
                PlanError::UnknownDevice(stage) => stages[i]@.stage == stage && leaves_topology(
                    stages[i]@,
                    devices,
                ),
                _ => false,
            },
    decreases stages.len() - from,
{
    if from < stages.len() {
        if stage_defect(stages, devices, from) is None {
            law_refused_plans(stages, devices, from + 1);
            if let Some(error) = first_defect(stages, devices, from) {
                let i = choose|i: int|
                    from + 1 <= i < stages.len() && match error {
                        PlanError::DuplicateStage(stage) => (#[trigger] stages[i])@.stage == stage
                            && exists|j: int| 0 <= j < i && (#[trigger] stages[j])@.stage == stage,
                        PlanError::UnknownDevice(stage) => stages[i]@.stage == stage
                            && leaves_topology(stages[i]@, devices),
                        _ => false,
                    };
                assert(stages[i]@.stage == stages[i]@.stage);
            }
        } else {
            assert(stages[from]@.stage == stages[from]@.stage);
            assert(repeats_stage(stages, from) ==> exists|j: int|
                0 <= j < from && (#[trigger] stages[j])@.stage == stages[from]@.stage);
        }
    }
}

/// Closing ends grants for good, takes nothing back, and is told to those who wait, once.
pub proof fn law_closing(pool: PoolView)
    ensures
        pool.shut().closed,
        pool.shut().granted == pool.granted,
        pool.shut().capacity == pool.capacity,
        pool.shut().next_allocation == pool.next_allocation,
        pool.closed ==> pool.shut() == pool,
        !pool.closed ==> pool.shut().readiness == pool.readiness.published(),
{
}

} // verus!
