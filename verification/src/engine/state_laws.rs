//! What allocating, moving and releasing state does to the ledger of a state manager.

use crate::engine::state::{
    at_position, first_member_defect, location_of, member_defect, position_of, satisfies,
    supplied, KvState, KvStateSpec, KvStateSpecView, RecurrentState, RecurrentStateSpec,
    RecurrentStateSpecView, StateError, StateHandle, StateLocation, StateRequirement,
};
use crate::engine::state_manager::{
    batch_defect, batch_moved, move_defect, moved, owns, owns_all, share, used, without,
    AllocationRecord, Allocations, LogicalStateManager, StateManager, StateManagerView,
};
use crate::engine::tensor::{width_of, DataType};
use vstd::prelude::*;

verus! {

/// The width of each element type in bytes.
pub proof fn law_element_widths()
    ensures
        width_of(DataType::F32) == 4,
        width_of(DataType::F16) == 2,
        width_of(DataType::BF16) == 2,
        width_of(DataType::I8) == 1,
        width_of(DataType::U8) == 1,
{
}

/// A key-value block holds a key and a value for every layer, head, dimension and token.
pub proof fn law_block_size(spec: KvStateSpecView)
    ensures
        spec.bytes() == 2 * (spec.layer_count * (spec.kv_heads * (spec.head_dim * (spec.block_tokens
            * width_of(spec.dtype))))),
{
    let (l, k, h, b, w) = (
        spec.layer_count as int,
        spec.kv_heads as int,
        spec.head_dim as int,
        spec.block_tokens as int,
        width_of(spec.dtype) as int,
    );
    assert(l * k * h * b * 2 * w == 2 * (l * (k * (h * (b * w))))) by (nonlinear_arith);
}

/// A recurrent state holds, for every layer, its matrices and its convolution history.
pub proof fn law_recurrent_size(spec: RecurrentStateSpecView)
    ensures
        spec.bytes() == spec.layer_count * (spec.matrix@.matrix_count * (spec.matrix@.rows * (
        spec.matrix@.columns * width_of(spec.matrix_dtype)))) + spec.layer_count * (
        spec.convolution@.channels * (spec.convolution@.history_tokens * width_of(
            spec.convolution_dtype,
        ))),
{
    let (l, m, r, c, w) = (
        spec.layer_count as int,
        spec.matrix@.matrix_count as int,
        spec.matrix@.rows as int,
        spec.matrix@.columns as int,
        width_of(spec.matrix_dtype) as int,
    );
    let (channels, history, v) = (
        spec.convolution@.channels as int,
        spec.convolution@.history_tokens as int,
        width_of(spec.convolution_dtype) as int,
    );
    assert(m * r * c * l * w == l * (m * (r * (c * w)))) by (nonlinear_arith);
    assert(channels * history * l * v == l * (channels * (history * v))) by (nonlinear_arith);
}

/// A requirement takes what its kind of state takes.
pub proof fn law_requirement_size(requirement: StateRequirement)
    ensures
        requirement matches StateRequirement::FullAttentionKv(spec) ==> requirement.bytes()
            == spec@.bytes(),
        requirement matches StateRequirement::Recurrent(spec) ==> requirement.bytes()
            == spec@.bytes(),
{
}

/// Why an allocation is refused: its size cannot be counted, or the place is not this
/// manager's, or the place has fewer bytes free, or no identity is left. Otherwise it is
/// granted.
pub proof fn law_refused_allocations(
    manager: StateManagerView,
    requirement: StateRequirement,
    location: StateLocation,
)
    ensures
        ({
            let bytes = requirement.bytes();
            let served = match location {
                StateLocation::Device(device) => device == manager.device,
                StateLocation::Host => true,
                _ => false,
            };
            let free = match location {
                StateLocation::Device(_) => manager.device_capacity_bytes - used(
                    manager.allocations,
                    true,
                ),
                _ => manager.host_capacity_bytes - used(manager.allocations, false),
            };
            &&& manager.refusal(requirement, location) is None <==> bytes <= u64::MAX && served
                && bytes <= free && manager.next_id < u64::MAX
            &&& manager.refusal(requirement, location) == Some(StateError::SizeOverflow) <==> bytes
                > u64::MAX
            &&& manager.refusal(requirement, location) == Some(StateError::UnsupportedLocation)
                <==> bytes <= u64::MAX && !served
            &&& manager.refusal(requirement, location) matches Some(
                StateError::CapacityExceeded { requested_bytes, available_bytes },
            ) ==> bytes <= u64::MAX && served && bytes > free && requested_bytes == bytes as u64
                && available_bytes == free as u64
            &&& manager.refusal(requirement, location) is Some && bytes <= u64::MAX && served
                && bytes > free ==> manager.refusal(requirement, location)->Some_0
                is CapacityExceeded
        }),
{
}

/// A granted allocation adds one record under an identity of its own, at the start of a
/// sequence and of the size that was asked for, and touches no other.
pub proof fn law_allocation_adds_one_record(
    manager: StateManagerView,
    requirement: StateRequirement,
    location: StateLocation,
    other: u64,
)
    requires
        manager.wf(),
        manager.refusal(requirement, location) is None,
    ensures
        ({
            let after = manager.allocated(requirement, location);
            let id = manager.next_id;
            &&& !manager.allocations.contains_key(id)
            &&& after.allocations.contains_key(id)
            &&& after.allocations[id].requirement == requirement
            &&& after.allocations[id].location == location
            &&& after.allocations[id].token_position == 0
            &&& after.allocations[id].bytes == requirement.bytes() as u64
            &&& after.next_id == id + 1
            &&& other != id ==> after.allocations.contains_key(other)
                == manager.allocations.contains_key(other) && (manager.allocations.contains_key(
                other,
            ) ==> after.allocations[other] == manager.allocations[other])
            &&& after.device == manager.device
            &&& after.device_capacity_bytes == manager.device_capacity_bytes
            &&& after.host_capacity_bytes == manager.host_capacity_bytes
        }),
{
}

/// Bytes are used by the records of a place and by nothing else: none without records, and
/// with one record more its bytes more, where it is of that place.
pub proof fn law_used_bytes_are_those_of_the_records(
    allocations: Allocations,
    id: u64,
    record: AllocationRecord,
    device: bool,
)
    requires
        allocations.dom().finite(),
        !allocations.contains_key(id),
    ensures
        used(Map::<u64, AllocationRecord>::empty(), device) == 0,
        used(allocations.insert(id, record), device) == used(allocations, device) + if (
        record.location is Device) == device {
            record.bytes as int
        } else {
            0
        },
{
    assert(Map::<u64, AllocationRecord>::empty().dom() =~= Set::empty());
    let grown = allocations.insert(id, record);
    lemma_used_without(grown, id, device);
    assert(grown.remove(id) =~= allocations);
}

proof fn lemma_used_without(allocations: Allocations, id: u64, device: bool)
    requires
        allocations.dom().finite(),
        allocations.contains_key(id),
    ensures
        used(allocations, device) == share(allocations[id], device) + used(
            allocations.remove(id),
            device,
        ),
    decreases allocations.dom().len(),
{
    let first = allocations.dom().choose();
    assert(allocations.dom().contains(id));
    assert(allocations.dom().len() > 0);
    if first != id {
        lemma_used_without(allocations.remove(first), id, device);
        lemma_used_without(allocations.remove(id), first, device);
        assert(allocations.remove(first).remove(id) =~= allocations.remove(id).remove(first));
    }
}

/// A handle is live where the ledger holds its allocation as the handle says: the same
/// requirement, place and position.
pub proof fn law_live_handles(allocations: Allocations, handle: StateHandle)
    ensures
        owns(allocations, handle) <==> allocations.contains_key(handle.id@) && {
            let record = allocations[handle.id@];
            record.requirement == handle.requirement && record.location == handle.location
                && record.token_position == handle.token_position
        },
{
}

/// A set moves exactly where every handle is live and none is past the position already; what
/// stops it is the first handle that is not.
pub proof fn law_sets_move_forward(allocations: Allocations, states: Seq<StateHandle>, position: u32)
    ensures
        move_defect(allocations, states, position, 0) is None <==> forall|i: int|
            0 <= i < states.len() ==> owns(allocations, #[trigger] states[i])
                && states[i].token_position <= position,
        move_defect(allocations, states, position, 0) matches Some(error) ==> exists|i: int|
            0 <= i < states.len() && (if owns(allocations, #[trigger] states[i]) {
                states[i].token_position > position && error == StateError::PositionRegression
            } else {
                error == StateError::InvalidHandle
            }) && forall|j: int|
                0 <= j < i ==> owns(allocations, #[trigger] states[j]) && states[j].token_position
                    <= position,
{
    lemma_move_defect(allocations, states, position, 0);
}

proof fn lemma_move_defect(
    allocations: Allocations,
    states: Seq<StateHandle>,
    position: u32,
    from: int,
)
    requires
        0 <= from <= states.len(),
    ensures
        move_defect(allocations, states, position, from) is None <==> forall|i: int|
            from <= i < states.len() ==> owns(allocations, #[trigger] states[i])
                && states[i].token_position <= position,
        move_defect(allocations, states, position, from) matches Some(error) ==> exists|i: int|
            from <= i < states.len() && (if owns(allocations, #[trigger] states[i]) {
                states[i].token_position > position && error == StateError::PositionRegression
            } else {
                error == StateError::InvalidHandle
            }) && forall|j: int|
                from <= j < i ==> owns(allocations, #[trigger] states[j])
                    && states[j].token_position <= position,
    decreases states.len() - from,
{
    if from < states.len() {
        if owns(allocations, states[from]) && states[from].token_position <= position {
            lemma_move_defect(allocations, states, position, from + 1);
            if let Some(error) = move_defect(allocations, states, position, from) {
                let i = choose|i: int|
                    from + 1 <= i < states.len() && (if owns(
                        allocations,
                        #[trigger] states[i],
                    ) {
                        states[i].token_position > position && error
                            == StateError::PositionRegression
                    } else {
                        error == StateError::InvalidHandle
                    }) && forall|j: int|
                        from + 1 <= j < i ==> owns(allocations, #[trigger] states[j])
                            && states[j].token_position <= position;
                assert(owns(allocations, states[i]) || !owns(allocations, states[i]));
            }
        } else {
            assert(owns(allocations, states[from]) || !owns(allocations, states[from]));
        }
    }
}

/// A batch moves exactly where every one of its sets does.
pub proof fn law_batches_move_as_their_sets(
    allocations: Allocations,
    sets: Seq<Seq<StateHandle>>,
    positions: Seq<u32>,
    from: int,
)
    requires
        0 <= from <= sets.len(),
    ensures
        batch_defect(allocations, sets, positions, from) is None <==> forall|i: int|
            from <= i < sets.len() ==> move_defect(
                allocations,
                #[trigger] sets[i],
                positions[i],
                0,
            ) is None,
    decreases sets.len() - from,
{
    if from < sets.len() {
        law_batches_move_as_their_sets(allocations, sets, positions, from + 1);
    }
}

/// Moving a set puts each of its allocations at the position, and changes nothing else of
/// them and nothing of others.
pub proof fn law_moving_changes_positions_only(
    allocations: Allocations,
    states: Seq<StateHandle>,
    position: u32,
    n: nat,
    id: u64,
)
    requires
        n <= states.len(),
        owns_all(allocations, states),
    ensures
        ({
            let after = moved(allocations, states, position, n);
            let named = exists|i: int| 0 <= i < n && (#[trigger] states[i]).id@ == id;
            &&& after.contains_key(id) == allocations.contains_key(id)
            &&& allocations.contains_key(id) ==> {
                &&& after[id].requirement == allocations[id].requirement
                &&& after[id].location == allocations[id].location
                &&& after[id].bytes == allocations[id].bytes
                &&& after[id].token_position == if named {
                    position
                } else {
                    allocations[id].token_position
                }
            }
        }),
    decreases n,
{
    if n > 0 {
        law_moving_changes_positions_only(allocations, states, position, (n - 1) as nat, id);
        assert(owns(allocations, states[n - 1]));
        law_moving_changes_positions_only(
            allocations,
            states,
            position,
            (n - 1) as nat,
            states[n - 1].id@,
        );
        let before = exists|i: int| 0 <= i < n - 1 && (#[trigger] states[i]).id@ == id;
        let named = exists|i: int| 0 <= i < n && (#[trigger] states[i]).id@ == id;
        if before {
            let i = choose|i: int| 0 <= i < n - 1 && (#[trigger] states[i]).id@ == id;
            assert(states[i].id@ == id);
        }
        if named && states[n - 1].id@ != id {
            let i = choose|i: int| 0 <= i < n && (#[trigger] states[i]).id@ == id;
            assert(i < n - 1);
        }
    }
}

/// Whether one of a set's handles names an allocation.
pub open spec fn names(states: Seq<StateHandle>, id: u64) -> bool {
    exists|i: int| 0 <= i < states.len() && (#[trigger] states[i]).id@ == id
}

/// Moving a batch puts the allocations of each set at the set's own position, and changes
/// nothing else of them and nothing of others.
pub proof fn law_batches_change_positions_only(
    allocations: Allocations,
    sets: Seq<Seq<StateHandle>>,
    positions: Seq<u32>,
    n: nat,
    id: u64,
)
    requires
        n <= sets.len() == positions.len(),
        forall|i: int, k: int|
            0 <= i < sets.len() && 0 <= k < sets[i].len() ==> allocations.contains_key(
                (#[trigger] sets[i][k]).id@,
            ),
        forall|i: int, j: int|
            0 <= i < j < sets.len() ==> !(names(#[trigger] sets[i], id) && names(
                #[trigger] sets[j],
                id,
            )),
    ensures
        ({
            let after = batch_moved(allocations, sets, positions, n);
            &&& after.dom() == allocations.dom()
            &&& allocations.contains_key(id) ==> {
                &&& after[id].requirement == allocations[id].requirement
                &&& after[id].location == allocations[id].location
                &&& after[id].bytes == allocations[id].bytes
                &&& forall|i: int|
                    0 <= i < n && names(#[trigger] sets[i], id) ==> after[id].token_position
                        == positions[i]
                &&& (forall|i: int| 0 <= i < n ==> !names(#[trigger] sets[i], id))
                    ==> after[id].token_position == allocations[id].token_position
            }
        }),
    decreases n,
{
    if n > 0 {
        let m = (n - 1) as nat;
        law_batches_change_positions_only(allocations, sets, positions, m, id);
        let before = batch_moved(allocations, sets, positions, m);
        let set = sets[n - 1];
        assert forall|k: int| 0 <= k < set.len() implies before.contains_key(
            (#[trigger] set[k]).id@,
        ) by {
            assert(allocations.contains_key(sets[n - 1][k].id@));
        }
        lemma_moved_set(before, set, positions[n - 1], set.len(), id);
        assert forall|i: int| 0 <= i < n && names(#[trigger] sets[i], id) implies batch_moved(
            allocations,
            sets,
            positions,
            n,
        )[id].token_position == positions[i] by {
            if i < n - 1 {
                assert(!(names(sets[i], id) && names(sets[n - 1], id)));
            }
        }
    }
}

proof fn lemma_moved_set(
    allocations: Allocations,
    states: Seq<StateHandle>,
    position: u32,
    n: nat,
    id: u64,
)
    requires
        n <= states.len(),
        forall|k: int|
            0 <= k < states.len() ==> allocations.contains_key((#[trigger] states[k]).id@),
    ensures
        ({
            let after = moved(allocations, states, position, n);
            &&& after.dom() == allocations.dom()
            &&& allocations.contains_key(id) ==> {
                &&& after[id].requirement == allocations[id].requirement
                &&& after[id].location == allocations[id].location
                &&& after[id].bytes == allocations[id].bytes
                &&& after[id].token_position == if names(states.take(n as int), id) {
                    position
                } else {
                    allocations[id].token_position
                }
            }
        }),
        n == states.len() ==> names(states.take(n as int), id) == names(states, id),
    decreases n,
{
    if n == states.len() {
        assert(states.take(n as int) =~= states);
    }
    if n > 0 {
        lemma_moved_set(allocations, states, position, (n - 1) as nat, id);
        assert(allocations.contains_key(states[n - 1].id@));
        assert(moved(allocations, states, position, n).dom() =~= allocations.dom());
        let shorter = states.take(n - 1);
        let longer = states.take(n as int);
        if names(shorter, id) {
            let i = choose|i: int| 0 <= i < shorter.len() && (#[trigger] shorter[i]).id@ == id;
            assert(longer[i].id@ == id);
        }
        assert(longer[n - 1] == states[n - 1]);
        if names(longer, id) && states[n - 1].id@ != id {
            let i = choose|i: int| 0 <= i < longer.len() && (#[trigger] longer[i]).id@ == id;
            assert(shorter[i].id@ == id);
        }
    }
}

/// Releasing a set takes exactly its allocations off the ledger.
pub proof fn law_release_takes_the_set_only(
    allocations: Allocations,
    states: Seq<StateHandle>,
    n: nat,
    id: u64,
)
    requires
        n <= states.len(),
    ensures
        ({
            let after = without(allocations, states, n);
            let named = exists|i: int| 0 <= i < n && (#[trigger] states[i]).id@ == id;
            &&& after.contains_key(id) <==> allocations.contains_key(id) && !named
            &&& after.contains_key(id) ==> after[id] == allocations[id]
        }),
    decreases n,
{
    if n > 0 {
        law_release_takes_the_set_only(allocations, states, (n - 1) as nat, id);
        if exists|i: int| 0 <= i < n - 1 && (#[trigger] states[i]).id@ == id {
            let i = choose|i: int| 0 <= i < n - 1 && (#[trigger] states[i]).id@ == id;
            assert(states[i].id@ == id);
        }
        if exists|i: int| 0 <= i < n && (#[trigger] states[i]).id@ == id {
            let i = choose|i: int| 0 <= i < n && (#[trigger] states[i]).id@ == id;
            assert(i == n - 1 || i < n - 1);
        }
    }
}

/// Handles that moved name the same allocations at the new position.
pub proof fn law_moved_handles(states: Seq<StateHandle>, position: u32, i: int)
    ensures
        at_position(states, position).len() == states.len(),
        0 <= i < states.len() ==> {
            let handle = at_position(states, position)[i];
            &&& handle.id == states[i].id
            &&& handle.requirement == states[i].requirement
            &&& handle.location == states[i].location
            &&& handle.token_position == position
        },
        states.len() > 0 ==> position_of(at_position(states, position)) == Some(position),
        location_of(at_position(states, position)) == location_of(states),
{
}

/// A set stands where its states stand, and it meets a requirement where one of them does.
pub proof fn law_sets_stand_with_their_states(
    states: Seq<StateHandle>,
    requirement: StateRequirement,
)
    ensures
        position_of(states) is None <==> states.len() == 0,
        location_of(states) is None <==> states.len() == 0,
        states.len() > 0 ==> position_of(states) == Some(states[0].token_position)
            && location_of(states) == Some(states[0].location),
        satisfies(states, requirement) <==> exists|i: int|
            0 <= i < states.len() && (#[trigger] states[i]).requirement == requirement,
{
}

/// A commit that succeeds moves every set to its own position and hands each back with the
/// handles that it had, at that position. One that fails moves none.
pub proof fn law_commits_move_each_set_to_its_position(
    manager: LogicalStateManager,
    states: Seq<Seq<StateHandle>>,
    positions: Seq<u32>,
    after: LogicalStateManager,
    states_after: Seq<Seq<StateHandle>>,
    result: Result<(), StateError>,
    i: int,
    k: int,
)
    requires
        manager.commits(states, positions, after, states_after, result),
    ensures
        result is Err ==> states_after == states && after@ == manager@,
        result is Ok ==> {
            &&& states.len() == positions.len() == states_after.len()
            &&& 0 <= i < states.len() ==> states_after[i].len() == states[i].len() && (0 <= k
                < states[i].len() ==> {
                &&& states_after[i][k].id == states[i][k].id
                &&& states_after[i][k].requirement == states[i][k].requirement
                &&& states_after[i][k].location == states[i][k].location
                &&& states_after[i][k].token_position == positions[i]
                &&& owns(manager@.allocations, states[i][k])
                &&& states[i][k].token_position <= positions[i]
            })
        },
        result is Ok <==> states.len() == positions.len() && forall|a: int, b: int|
            0 <= a < states.len() && 0 <= b < states[a].len() ==> owns(
                manager@.allocations,
                #[trigger] states[a][b],
            ) && states[a][b].token_position <= positions[a],
{
    if states.len() == positions.len() {
        law_batches_move_as_their_sets(manager@.allocations, states, positions, 0);
        assert forall|a: int|
            #![trigger states[a]]
            0 <= a < states.len() implies (move_defect(
            manager@.allocations,
            states[a],
            positions[a],
            0,
        ) is None <==> forall|b: int|
            0 <= b < states[a].len() ==> owns(manager@.allocations, #[trigger] states[a][b])
                && states[a][b].token_position <= positions[a]) by {
            law_sets_move_forward(manager@.allocations, states[a], positions[a]);
        }
        if batch_defect(manager@.allocations, states, positions, 0) is Some {
            let a = choose|a: int|
                0 <= a < states.len() && move_defect(
                    manager@.allocations,
                    #[trigger] states[a],
                    positions[a],
                    0,
                ) is Some;
            assert(move_defect(manager@.allocations, states[a], positions[a], 0) is Some);
        }
    }
}

/// A release that succeeds frees the allocations of the set and no other; one that fails
/// frees none. It succeeds exactly where every handle is live.
pub proof fn law_releases_free_the_set_only(
    manager: LogicalStateManager,
    state: Seq<StateHandle>,
    after: LogicalStateManager,
    result: Result<(), StateError>,
    id: u64,
)
    requires
        manager.releases(state, after, result),
    ensures
        result is Ok <==> owns_all(manager@.allocations, state),
        result is Err ==> result == Err::<(), StateError>(StateError::InvalidHandle) && after@
            == manager@,
        result is Ok ==> {
            &&& after@.allocations.contains_key(id) <==> manager@.allocations.contains_key(id)
                && !names(state, id)
            &&& after@.allocations.contains_key(id) ==> after@.allocations[id]
                == manager@.allocations[id]
            &&& after@.next_id == manager@.next_id
        },
{
    law_release_takes_the_set_only(manager@.allocations, state, state.len(), id);
}

/// A set is made of exactly the states that are given, the attention state first.
pub proof fn law_sets_hold_what_is_given(kv: Option<KvState>, recurrent: Option<RecurrentState>)
    ensures
        ({
            let states = supplied(kv, recurrent);
            &&& states.len() == (if kv is Some {
                1int
            } else {
                0
            }) + (if recurrent is Some {
                1int
            } else {
                0
            })
            &&& kv matches Some(state) ==> states[0] == state@
            &&& recurrent matches Some(state) ==> states.last() == state@
        }),
{
}

/// An allocation that succeeds hands out a handle to the new record, at the start of a
/// sequence; one that fails changes nothing and says why.
pub proof fn law_allocations_hand_out_their_record(
    manager: LogicalStateManager,
    kv: KvStateSpec,
    recurrent: RecurrentStateSpec,
    location: StateLocation,
    after: LogicalStateManager,
    allocated: Result<KvState, StateError>,
    other_after: LogicalStateManager,
    other: Result<RecurrentState, StateError>,
)
    requires
        manager.allocates_kv(kv, location, after, allocated),
        manager.allocates_recurrent(recurrent, location, other_after, other),
    ensures
        allocated is Ok <==> manager@.refusal(
            StateRequirement::FullAttentionKv(kv),
            location,
        ) is None,
        allocated matches Err(error) ==> after@ == manager@ && manager@.refusal(
            StateRequirement::FullAttentionKv(kv),
            location,
        ) == Some(error),
        allocated matches Ok(state) ==> {
            &&& owns(after@.allocations, state@)
            &&& state@.id@ == manager@.next_id
            &&& state@.requirement == StateRequirement::FullAttentionKv(kv)
            &&& state@.location == location
            &&& state@.token_position == 0
        },
        other is Ok <==> manager@.refusal(
            StateRequirement::Recurrent(recurrent),
            location,
        ) is None,
        other matches Err(error) ==> other_after@ == manager@ && manager@.refusal(
            StateRequirement::Recurrent(recurrent),
            location,
        ) == Some(error),
        other matches Ok(state) ==> {
            &&& owns(other_after@.allocations, state@)
            &&& state@.id@ == manager@.next_id
            &&& state@.requirement == StateRequirement::Recurrent(recurrent)
            &&& state@.location == location
            &&& state@.token_position == 0
        },
{
}

/// One set moves and one handle is released as a batch of one is: the set to the position it
/// is given, with its handles, and the handle's own allocation and no other.
pub proof fn law_single_sets_and_handles(
    manager: LogicalStateManager,
    state: Seq<StateHandle>,
    position: u32,
    after: LogicalStateManager,
    state_after: Seq<StateHandle>,
    result: Result<(), StateError>,
    handle: StateHandle,
    freed: LogicalStateManager,
    release: Result<(), StateError>,
    i: int,
)
    requires
        manager.commits_one(state, position, after, state_after, result),
        manager.releases_one(handle, freed, release),
    ensures
        result is Err ==> state_after == state && after@ == manager@,
        result is Ok ==> state_after.len() == state.len() && (0 <= i < state.len() ==> {
            &&& state_after[i].id == state[i].id
            &&& state_after[i].requirement == state[i].requirement
            &&& state_after[i].location == state[i].location
            &&& state_after[i].token_position == position
        }),
        release is Ok <==> owns(manager@.allocations, handle),
        release is Err ==> freed@ == manager@,
        release is Ok ==> freed@.allocations == manager@.allocations.remove(handle.id@)
            && freed@.next_id == manager@.next_id,
{
}

/// Why states do not make up a set: the first of them that does not stand where the first one
/// stands, is not where that one is, or meets a requirement that an earlier one meets.
pub proof fn law_refused_sets(states: Seq<StateHandle>)
    ensures
        first_member_defect(states, 0) matches Some(error) ==> exists|i: int|
            0 <= i < states.len() && {
                &&& error == StateError::PositionMismatch <==> (
                #[trigger] states[i]).token_position != states[0].token_position
                &&& error == StateError::LocationMismatch <==> states[i].token_position
                    == states[0].token_position && states[i].location != states[0].location
                &&& error == StateError::DuplicateRequirement ==> exists|j: int|
                    0 <= j < i && (#[trigger] states[j]).requirement == states[i].requirement
                &&& error == StateError::PositionMismatch || error == StateError::LocationMismatch
                    || error == StateError::DuplicateRequirement
            },
{
    lemma_refused_set(states, 0);
}

proof fn lemma_refused_set(states: Seq<StateHandle>, from: int)
    requires
        0 <= from <= states.len(),
    ensures
        first_member_defect(states, from) matches Some(error) ==> exists|i: int|
            0 <= i < states.len() && {
                &&& error == StateError::PositionMismatch <==> (
                #[trigger] states[i]).token_position != states[0].token_position
                &&& error == StateError::LocationMismatch <==> states[i].token_position
                    == states[0].token_position && states[i].location != states[0].location
                &&& error == StateError::DuplicateRequirement ==> exists|j: int|
                    0 <= j < i && (#[trigger] states[j]).requirement == states[i].requirement
                &&& error == StateError::PositionMismatch || error == StateError::LocationMismatch
                    || error == StateError::DuplicateRequirement
            },
    decreases states.len() - from,
{
    if from < states.len() {
        if member_defect(states, from) is None {
            lemma_refused_set(states, from + 1);
        } else {
            assert(states[from].token_position == states[from].token_position);
        }
    }
}

} // verus!
