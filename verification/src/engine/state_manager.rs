//! Allocation, commitment and release of logical state.

use crate::engine::device::DeviceId;
use crate::engine::state::{
    at_position, coherent, handles, InferenceStateSet, KvState, KvStateSpec, RecurrentState,
    RecurrentStateSpec, StateError, StateHandle, StateId, StateLocation, StateRequirement,
};
use std::collections::HashMap;
use vstd::prelude::*;

verus! {

broadcast use vstd::std_specs::hash::group_hash_axioms;

/// What the manager knows of one allocation.
#[derive(Clone, Copy, Debug, PartialEq, Eq, Structural)]
pub struct AllocationRecord {
    pub requirement: StateRequirement,
    pub location: StateLocation,
    pub token_position: u32,
    pub bytes: u64,
}

/// Live allocations by the number of their identity.
pub type Allocations = Map<u64, AllocationRecord>;

/// Whether a location is on a device.
pub open spec fn on_device(location: StateLocation) -> bool {
    location is Device
}

/// What one allocation adds to the bytes used on devices, or on the host.
pub open spec fn share(record: AllocationRecord, device: bool) -> int {
    if on_device(record.location) == device {
        record.bytes as int
    } else {
        0
    }
}

/// Bytes that the allocations use on devices, or on the host.
pub open spec fn used(allocations: Allocations, device: bool) -> int
    decreases allocations.dom().len(),
    when allocations.dom().finite()
{
    if allocations.dom().len() == 0 {
        0
    } else {
        let id = allocations.dom().choose();
        share(allocations[id], device) + used(allocations.remove(id), device)
    }
}

proof fn lemma_used_remove(allocations: Allocations, id: u64, device: bool)
    requires
        allocations.dom().finite(),
        allocations.contains_key(id),
    ensures
        used(allocations, device) == share(allocations[id], device) + used(
            allocations.remove(id),
            device,
        ),
    decreases allocations.dom().len(),
{
    let first = allocations.dom().choose();
    assert(allocations.dom().contains(id));
    assert(allocations.dom().len() > 0);
    if first != id {
        lemma_used_remove(allocations.remove(first), id, device);
        lemma_used_remove(allocations.remove(id), first, device);
        assert(allocations.remove(first).remove(id) =~= allocations.remove(id).remove(first));
    }
}

proof fn lemma_used_insert(allocations: Allocations, id: u64, record: AllocationRecord, device: bool)
    requires
        allocations.dom().finite(),
        !allocations.contains_key(id),
    ensures
        used(allocations.insert(id, record), device) == used(allocations, device) + share(
            record,
            device,
        ),
{
    let grown = allocations.insert(id, record);
    lemma_used_remove(grown, id, device);
    assert(grown.remove(id) =~= allocations);
}

proof fn lemma_used_nonnegative(allocations: Allocations, device: bool)
    requires
        allocations.dom().finite(),
    ensures
        used(allocations, device) >= 0,
    decreases allocations.dom().len(),
{
    if allocations.dom().len() > 0 {
        let id = allocations.dom().choose();
        lemma_used_nonnegative(allocations.remove(id), device);
    }
}

/// Moving an allocation to another position changes no byte count.
proof fn lemma_used_moved(allocations: Allocations, id: u64, position: u32, device: bool)
    requires
        allocations.dom().finite(),
        allocations.contains_key(id),
    ensures
        used(
            allocations.insert(
                id,
                AllocationRecord { token_position: position, ..allocations[id] },
            ),
            device,
        ) == used(allocations, device),
{
    let record = AllocationRecord { token_position: position, ..allocations[id] };
    let moved = allocations.insert(id, record);
    lemma_used_remove(allocations, id, device);
    lemma_used_remove(moved, id, device);
    assert(moved.remove(id) =~= allocations.remove(id));
}

/// Whether the handle names a live allocation as it stands.
pub open spec fn owns(allocations: Allocations, handle: StateHandle) -> bool {
    &&& allocations.contains_key(handle.id@)
    &&& allocations[handle.id@].requirement == handle.requirement
    &&& allocations[handle.id@].location == handle.location
    &&& allocations[handle.id@].token_position == handle.token_position
}

/// Whether every handle names a live allocation as it stands.
pub open spec fn owns_all(allocations: Allocations, states: Seq<StateHandle>) -> bool {
    forall|i: int| 0 <= i < states.len() ==> owns(allocations, #[trigger] states[i])
}

/// Why a set cannot move to a position, from its state `i` on: the first state that is
/// not live, or that is already past the position.
pub open spec fn move_defect(
    allocations: Allocations,
    states: Seq<StateHandle>,
    position: u32,
    i: int,
) -> Option<StateError>
    decreases states.len() - i,
{
    if i < 0 || i >= states.len() {
        None
    } else if !owns(allocations, states[i]) {
        Some(StateError::InvalidHandle)
    } else if position < states[i].token_position {
        Some(StateError::PositionRegression)
    } else {
        move_defect(allocations, states, position, i + 1)
    }
}

/// Why a batch of sets cannot move, from its set `i` on.
pub open spec fn batch_defect(
    allocations: Allocations,
    sets: Seq<Seq<StateHandle>>,
    positions: Seq<u32>,
    i: int,
) -> Option<StateError>
    decreases sets.len() - i,
{
    if i < 0 || i >= sets.len() {
        None
    } else if move_defect(allocations, sets[i], positions[i], 0) is Some {
        move_defect(allocations, sets[i], positions[i], 0)
    } else {
        batch_defect(allocations, sets, positions, i + 1)
    }
}

/// The allocations after the first `n` states moved to a position.
pub open spec fn moved(
    allocations: Allocations,
    states: Seq<StateHandle>,
    position: u32,
    n: nat,
) -> Allocations
    decreases n,
{
    if n == 0 {
        allocations
    } else {
        let before = moved(allocations, states, position, (n - 1) as nat);
        let id = states[n - 1].id@;
        before.insert(id, AllocationRecord { token_position: position, ..before[id] })
    }
}

/// The allocations after the first `n` sets moved, each to its own position.
pub open spec fn batch_moved(
    allocations: Allocations,
    sets: Seq<Seq<StateHandle>>,
    positions: Seq<u32>,
    n: nat,
) -> Allocations
    decreases n,
{
    if n == 0 {
        allocations
    } else {
        let before = batch_moved(allocations, sets, positions, (n - 1) as nat);
        moved(before, sets[n - 1], positions[n - 1], sets[n - 1].len())
    }
}

/// The allocations without those of the first `n` states.
pub open spec fn without(allocations: Allocations, states: Seq<StateHandle>, n: nat) -> Allocations
    decreases n,
{
    if n == 0 {
        allocations
    } else {
        without(allocations, states, (n - 1) as nat).remove(states[n - 1].id@)
    }
}

/// Handles of each set of a batch.
pub open spec fn held(sets: Seq<InferenceStateSet>) -> Seq<Seq<StateHandle>> {
    sets.map_values(|set: InferenceStateSet| set@)
}

/// What a logical state manager holds.
#[verifier::ext_equal]
pub struct StateManagerView {
    pub device: DeviceId,
    pub device_capacity_bytes: u64,
    pub host_capacity_bytes: u64,
    pub next_id: u64,
    pub allocations: Allocations,
}

impl StateManagerView {
    /// Every allocation has an identity that was issued, a place that the manager serves
    /// and the bytes that its requirement needs, and no place holds more than it can.
    pub open spec fn wf(self) -> bool {
        &&& self.allocations.dom().finite()
        &&& self.next_id >= 1
        &&& used(self.allocations, true) <= self.device_capacity_bytes
        &&& used(self.allocations, false) <= self.host_capacity_bytes
        &&& forall|id: u64|
            #![trigger self.allocations.contains_key(id)]
            #![trigger self.allocations[id]]
            self.allocations.contains_key(id) ==> {
                let record = self.allocations[id];
                &&& 0 < id < self.next_id
                &&& self.serves(record.location)
                &&& record.bytes == record.requirement.bytes()
            }
    }

    /// Whether the manager serves a location.
    pub open spec fn serves(self, location: StateLocation) -> bool {
        location == StateLocation::Device(self.device) || location == StateLocation::Host
    }

    /// Bytes that a location can hold.
    pub open spec fn capacity(self, location: StateLocation) -> u64 {
        if on_device(location) {
            self.device_capacity_bytes
        } else {
            self.host_capacity_bytes
        }
    }

    /// Bytes still free at a location.
    pub open spec fn available(self, location: StateLocation) -> int {
        self.capacity(location) - used(self.allocations, on_device(location))
    }

    /// Why an allocation is refused, if it is.
    pub open spec fn refusal(
        self,
        requirement: StateRequirement,
        location: StateLocation,
    ) -> Option<StateError> {
        if requirement.bytes() > u64::MAX {
            Some(StateError::SizeOverflow)
        } else if !self.serves(location) {
            Some(StateError::UnsupportedLocation)
        } else if requirement.bytes() > self.available(location) {
            Some(
                StateError::CapacityExceeded {
                    requested_bytes: requirement.bytes() as u64,
                    available_bytes: self.available(location) as u64,
                },
            )
        } else if self.next_id == u64::MAX {
            Some(StateError::InvalidHandle)
        } else {
            None
        }
    }

    /// The manager after an allocation at the start of a sequence.
    pub open spec fn allocated(
        self,
        requirement: StateRequirement,
        location: StateLocation,
    ) -> StateManagerView {
        StateManagerView {
            next_id: (self.next_id + 1) as u64,
            allocations: self.allocations.insert(
                self.next_id,
                AllocationRecord {
                    requirement,
                    location,
                    token_position: 0,
                    bytes: requirement.bytes() as u64,
                },
            ),
            ..self
        }
    }

    /// The manager with other allocations.
    pub open spec fn with(self, allocations: Allocations) -> StateManagerView {
        StateManagerView { allocations, ..self }
    }
}

/// An allocation that is not refused keeps the manager well formed.
proof fn lemma_allocated_wf(
    manager: StateManagerView,
    requirement: StateRequirement,
    location: StateLocation,
)
    requires
        manager.wf(),
        manager.refusal(requirement, location) is None,
    ensures
        manager.allocated(requirement, location).wf(),
{
    let after = manager.allocated(requirement, location);
    let record = after.allocations[manager.next_id];
    lemma_used_insert(manager.allocations, manager.next_id, record, true);
    lemma_used_insert(manager.allocations, manager.next_id, record, false);
}

/// Removing a live allocation keeps the manager well formed.
proof fn lemma_removed_wf(manager: StateManagerView, id: u64)
    requires
        manager.wf(),
        manager.allocations.contains_key(id),
    ensures
        manager.with(manager.allocations.remove(id)).wf(),
        used(manager.allocations.remove(id), true) == used(manager.allocations, true) - share(
            manager.allocations[id],
            true,
        ),
        used(manager.allocations.remove(id), false) == used(manager.allocations, false) - share(
            manager.allocations[id],
            false,
        ),
{
    lemma_used_remove(manager.allocations, id, true);
    lemma_used_remove(manager.allocations, id, false);
}

/// What moving states does not change: which allocations live, and their bytes.
proof fn lemma_moved(
    manager: StateManagerView,
    states: Seq<StateHandle>,
    position: u32,
    n: nat,
)
    requires
        manager.wf(),
        n <= states.len(),
        forall|i: int|
            0 <= i < states.len() ==> manager.allocations.contains_key((#[trigger] states[i]).id@),
    ensures
        manager.with(moved(manager.allocations, states, position, n)).wf(),
        moved(manager.allocations, states, position, n).dom() == manager.allocations.dom(),
        used(moved(manager.allocations, states, position, n), true) == used(
            manager.allocations,
            true,
        ),
        used(moved(manager.allocations, states, position, n), false) == used(
            manager.allocations,
            false,
        ),
    decreases n,
{
    if n > 0 {
        lemma_moved(manager, states, position, (n - 1) as nat);
        let before = moved(manager.allocations, states, position, (n - 1) as nat);
        let id = states[n - 1].id@;
        assert(manager.allocations.contains_key(id));
        assert(before.contains_key(id));
        lemma_used_moved(before, id, position, true);
        lemma_used_moved(before, id, position, false);
        let after = moved(manager.allocations, states, position, n);
        assert(after.dom() =~= manager.allocations.dom());
        assert forall|key: u64| after.contains_key(key) implies {
            let record = #[trigger] after[key];
            &&& 0 < key < manager.next_id
            &&& manager.serves(record.location)
            &&& record.bytes == record.requirement.bytes()
        } by {
            assert(before.contains_key(key));
            let record = before[key];
        }
    }
}

/// States of a coherent set that are all live have different identities.
proof fn lemma_owned_states_are_distinct(allocations: Allocations, states: Seq<StateHandle>)
    requires
        coherent(states),
        owns_all(allocations, states),
    ensures
        forall|i: int, j: int|
            0 <= i < j < states.len() ==> (#[trigger] states[i]).id@ != (#[trigger] states[j]).id@,
{
    assert forall|i: int, j: int| 0 <= i < j < states.len() implies (#[trigger] states[i]).id@ != (
    #[trigger] states[j]).id@ by {
        assert(owns(allocations, states[i]) && owns(allocations, states[j]));
    }
}

/// Taking out the states of a set one after the other leaves the later ones live.
proof fn lemma_without(manager: StateManagerView, states: Seq<StateHandle>, n: nat)
    requires
        manager.wf(),
        coherent(states),
        owns_all(manager.allocations, states),
        n <= states.len(),
    ensures
        manager.with(without(manager.allocations, states, n)).wf(),
        forall|i: int|
            n <= i < states.len() ==> {
                &&& without(manager.allocations, states, n).contains_key(
                    (#[trigger] states[i]).id@,
                )
                &&& without(manager.allocations, states, n)[states[i].id@]
                    == manager.allocations[states[i].id@]
            },
    decreases n,
{
    lemma_owned_states_are_distinct(manager.allocations, states);
    if n > 0 {
        lemma_without(manager, states, (n - 1) as nat);
        let before = without(manager.allocations, states, (n - 1) as nat);
        lemma_removed_wf(manager.with(before), states[n - 1].id@);
    } else {
        assert forall|i: int| 0 <= i < states.len() implies {
            &&& without(manager.allocations, states, n).contains_key((#[trigger] states[i]).id@)
            &&& without(manager.allocations, states, n)[states[i].id@]
                == manager.allocations[states[i].id@]
        } by {
            assert(owns(manager.allocations, states[i]));
        }
    }
}

proof fn lemma_no_move_defect(
    allocations: Allocations,
    states: Seq<StateHandle>,
    position: u32,
    i: int,
)
    requires
        0 <= i <= states.len(),
        move_defect(allocations, states, position, i) is None,
    ensures
        forall|k: int|
            i <= k < states.len() ==> owns(allocations, #[trigger] states[k])
                && states[k].token_position <= position,
    decreases states.len() - i,
{
    if i < states.len() {
        lemma_no_move_defect(allocations, states, position, i + 1);
    }
}

/// The counters and the table that change together.
#[derive(Debug)]
struct Ledger {
    device_used_bytes: u64,
    host_used_bytes: u64,
    next_id: u64,
    allocations: HashMap<u64, AllocationRecord>,
}

impl Ledger {
    spec fn balanced(&self) -> bool {
        &&& self.device_used_bytes == used(self.allocations@, true)
        &&& self.host_used_bytes == used(self.allocations@, false)
    }

    fn empty() -> (r: Self)
        ensures
            r.balanced(),
            r.next_id == 1,
            r.allocations@ == Map::<u64, AllocationRecord>::empty(),
    {
        let allocations: HashMap<u64, AllocationRecord> = HashMap::new();
        assert(allocations@.dom().len() == 0) by {
            assert(allocations@.dom() =~= Set::empty());
        }
        Ledger { device_used_bytes: 0, host_used_bytes: 0, next_id: 1, allocations }
    }

    /// Take one live allocation out.
    fn remove(&mut self, id: u64)
        requires
            old(self).balanced(),
            old(self).allocations@.contains_key(id),
        ensures
            final(self).balanced(),
            final(self).next_id == old(self).next_id,
            final(self).allocations@ == old(self).allocations@.remove(id),
    {
        let ghost before = self.allocations@;
        proof {
            lemma_used_remove(before, id, true);
            lemma_used_remove(before, id, false);
            lemma_used_nonnegative(before.remove(id), true);
            lemma_used_nonnegative(before.remove(id), false);
        }
        if let Some(record) = self.allocations.remove(&id) {
            match record.location {
                StateLocation::Device(_) => {
                    self.device_used_bytes = self.device_used_bytes - record.bytes;
                },
                StateLocation::Host => {
                    self.host_used_bytes = self.host_used_bytes - record.bytes;
                },
            }
        }
    }

    /// Move one live allocation to a position.
    fn move_to(&mut self, id: u64, position: u32)
        requires
            old(self).balanced(),
            old(self).allocations@.contains_key(id),
        ensures
            final(self).balanced(),
            final(self).next_id == old(self).next_id,
            final(self).allocations@ == old(self).allocations@.insert(
                id,
                AllocationRecord { token_position: position, ..old(self).allocations@[id] },
            ),
    {
        proof {
            lemma_used_moved(self.allocations@, id, position, true);
            lemma_used_moved(self.allocations@, id, position, false);
        }
        if let Some(record) = self.allocations.get(&id) {
            let changed = AllocationRecord {
                requirement: record.requirement,
                location: record.location,
                token_position: position,
                bytes: record.bytes,
            };
            self.allocations.insert(id, changed);
        }
    }

    fn find(&self, handle: &StateHandle) -> (r: bool)
        ensures
            r == owns(self.allocations@, *handle),
    {
        match self.allocations.get(&handle.id.get()) {
            Some(record) => record.requirement == handle.requirement && record.location
                == handle.location && record.token_position == handle.token_position,
            None => false,
        }
    }
}

/// Accounts for typed state on one device and on the host.
#[derive(Debug)]
pub struct LogicalStateManager {
    device: DeviceId,
    device_capacity_bytes: u64,
    host_capacity_bytes: u64,
    ledger: Ledger,
}

impl View for LogicalStateManager {
    type V = StateManagerView;

    closed spec fn view(&self) -> StateManagerView {
        StateManagerView {
            device: self.device,
            device_capacity_bytes: self.device_capacity_bytes,
            host_capacity_bytes: self.host_capacity_bytes,
            next_id: self.ledger.next_id,
            allocations: self.ledger.allocations@,
        }
    }
}

impl LogicalStateManager {
    #[verifier::type_invariant]
    spec fn accounted(self) -> bool {
        self.ledger.balanced() && self@.wf()
    }

    #[must_use]
    pub fn new(device: DeviceId, device_capacity_bytes: u64, host_capacity_bytes: u64) -> (r: Self)
        ensures
            r@.wf(),
            r@ == (StateManagerView {
                device,
                device_capacity_bytes,
                host_capacity_bytes,
                next_id: 1,
                allocations: Map::empty(),
            }),
    {
        let ledger = Ledger::empty();
        LogicalStateManager { device, device_capacity_bytes, host_capacity_bytes, ledger }
    }

    #[must_use]
    pub fn device(&self) -> (r: DeviceId)
        ensures
            r == self@.device,
    {
        self.device
    }

    #[must_use]
    pub fn capacity_bytes(&self, location: StateLocation) -> (r: Option<u64>)
        ensures
            self@.serves(location) ==> r == Some(self@.capacity(location)),
            !self@.serves(location) ==> r is None,
    {
        match location {
            StateLocation::Device(device) => if device == self.device {
                Some(self.device_capacity_bytes)
            } else {
                None
            },
            StateLocation::Host => Some(self.host_capacity_bytes),
        }
    }

    #[must_use]
    pub fn used_bytes(&self, location: StateLocation) -> (r: Option<u64>)
        ensures
            self@.wf(),
            self@.serves(location) ==> r is Some && r->Some_0 == used(
                self@.allocations,
                on_device(location),
            ),
            !self@.serves(location) ==> r is None,
    {
        proof {
            use_type_invariant(self);
        }
        match location {
            StateLocation::Device(device) => if device == self.device {
                Some(self.ledger.device_used_bytes)
            } else {
                None
            },
            StateLocation::Host => Some(self.ledger.host_used_bytes),
        }
    }

    /// Put an empty table in place, so that the counters and the table can change together.
    fn take_ledger(&mut self) -> (r: Ledger)
        ensures
            r.balanced(),
            old(self)@.wf(),
            old(self)@ == final(self)@.with_ledger(r.next_id, r.allocations@),
    {
        proof {
            use_type_invariant(&*self);
            lemma_empty_used();
        }
        let mut taken = Ledger::empty();
        core::mem::swap(&mut taken, &mut self.ledger);
        taken
    }

    fn reserve(&mut self, requirement: StateRequirement, location: StateLocation) -> (r: Result<
        StateHandle,
        StateError,
    >)
        ensures
            old(self)@.wf(),
            final(self)@.wf(),
            match old(self)@.refusal(requirement, location) {
                Some(error) => r == Err::<StateHandle, StateError>(error) && final(self)@ == old(
                    self,
                )@,
                None => {
                    &&& r is Ok
                    &&& r->Ok_0.id@ == old(self)@.next_id
                    &&& r->Ok_0.requirement == requirement
                    &&& r->Ok_0.location == location
                    &&& r->Ok_0.token_position == 0
                    &&& final(self)@ == old(self)@.allocated(requirement, location)
                },
            },
    {
        proof {
            use_type_invariant(&*self);
            lemma_used_nonnegative(self@.allocations, true);
            lemma_used_nonnegative(self@.allocations, false);
        }
        let bytes: u64 = match requirement.byte_size() {
            Some(bytes) => bytes,
            None => {
                return Err(StateError::SizeOverflow);
            },
        };
        let available: u64 = match location {
            StateLocation::Device(device) => {
                if device != self.device {
                    return Err(StateError::UnsupportedLocation);
                }
                self.device_capacity_bytes - self.ledger.device_used_bytes
            },
            StateLocation::Host => self.host_capacity_bytes - self.ledger.host_used_bytes,
        };
        if bytes > available {
            return Err(
                StateError::CapacityExceeded {
                    requested_bytes: bytes,
                    available_bytes: available,
                },
            );
        }
        let id: StateId = match StateId::new(self.ledger.next_id) {
            Some(id) => id,
            None => {
                return Err(StateError::InvalidHandle);
            },
        };
        if self.ledger.next_id == u64::MAX {
            return Err(StateError::InvalidHandle);
        }
        let ghost before = self@;
        proof {
            lemma_requirement_bytes(requirement);
            lemma_allocated_wf(before, requirement, location);
        }
        let record = AllocationRecord { requirement, location, token_position: 0, bytes };
        let mut ledger = self.take_ledger();
        proof {
            lemma_used_insert(before.allocations, before.next_id, record, true);
            lemma_used_insert(before.allocations, before.next_id, record, false);
        }
        ledger.next_id = ledger.next_id + 1;
        match location {
            StateLocation::Device(_) => {
                ledger.device_used_bytes = ledger.device_used_bytes + bytes;
            },
            StateLocation::Host => {
                ledger.host_used_bytes = ledger.host_used_bytes + bytes;
            },
        }
        ledger.allocations.insert(id.get(), record);
        self.ledger = ledger;
        Ok(StateHandle { id, requirement, location, token_position: 0 })
    }

    /// Why a set cannot move to a position, if it cannot.
    fn check_move(&self, state: &InferenceStateSet, position: u32) -> (r: Result<(), StateError>)
        ensures
            r == match move_defect(self@.allocations, state@, position, 0) {
                Some(error) => Err::<(), StateError>(error),
                None => Ok(()),
            },
    {
        let states = state.states();
        let mut index: usize = 0;
        while index < states.len()
            invariant
                index <= states.len(),
                handles(states@) == state@,
                move_defect(self@.allocations, state@, position, 0) == move_defect(
                    self@.allocations,
                    state@,
                    position,
                    index as int,
                ),
            decreases states.len() - index,
        {
            let handle = states[index].handle();
            assert(handles(states@)[index as int] == states@[index as int]@);
            if !self.ledger.find(handle) {
                return Err(StateError::InvalidHandle);
            }
            if position < handle.token_position {
                return Err(StateError::PositionRegression);
            }
            index += 1;
        }
        Ok(())
    }

    /// Move every state of a live set to a position.
    fn apply_move(&mut self, state: &InferenceStateSet, position: u32)
        requires
            forall|i: int|
                0 <= i < state@.len() ==> old(self)@.allocations.contains_key(
                    (#[trigger] state@[i]).id@,
                ),
        ensures
            old(self)@.wf(),
            final(self)@.wf(),
            final(self)@ == old(self)@.with(
                moved(old(self)@.allocations, state@, position, state@.len()),
            ),
    {
        proof {
            use_type_invariant(&*self);
        }
        let ghost before = self@;
        let states = state.states();
        let mut ledger = self.take_ledger();
        let mut index: usize = 0;
        while index < states.len()
            invariant
                index <= states.len(),
                handles(states@) == state@,
                before.wf(),
                ledger.balanced(),
                ledger.next_id == before.next_id,
                ledger.allocations@ == moved(before.allocations, state@, position, index as nat),
                forall|i: int|
                    0 <= i < state@.len() ==> before.allocations.contains_key(
                        (#[trigger] state@[i]).id@,
                    ),
            decreases states.len() - index,
        {
            let id: u64 = states[index].handle().id.get();
            proof {
                lemma_moved(before, state@, position, index as nat);
                assert(handles(states@)[index as int] == states@[index as int]@);
                assert(before.allocations.contains_key(state@[index as int].id@));
                assert(ledger.allocations@.dom().contains(id));
            }
            ledger.move_to(id, position);
            index += 1;
        }
        proof {
            lemma_moved(before, state@, position, index as nat);
        }
        self.ledger = ledger;
    }
}

impl StateManagerView {
    /// The manager with another table and counter of identities.
    pub open spec fn with_ledger(self, next_id: u64, allocations: Allocations) -> StateManagerView {
        StateManagerView { next_id, allocations, ..self }
    }
}

proof fn lemma_empty_used()
    ensures
        used(Map::<u64, AllocationRecord>::empty(), true) == 0,
        used(Map::<u64, AllocationRecord>::empty(), false) == 0,
{
    assert(Map::<u64, AllocationRecord>::empty().dom() =~= Set::empty());
}

/// A requirement never needs a negative number of bytes.
proof fn lemma_requirement_bytes(requirement: StateRequirement)
    ensures
        requirement.bytes() >= 0,
{
    match requirement {
        StateRequirement::FullAttentionKv(spec) => {
            let v = spec@;
            assert(v.bytes() >= 0) by {
                lemma_nonnegative_product(v.layer_count as int, v.kv_heads as int);
                lemma_nonnegative_product(v.layer_count * v.kv_heads, v.head_dim as int);
                lemma_nonnegative_product(
                    v.layer_count * v.kv_heads * v.head_dim,
                    v.block_tokens as int,
                );
                lemma_nonnegative_product(
                    v.layer_count * v.kv_heads * v.head_dim * v.block_tokens * 2,
                    crate::engine::tensor::width_of(v.dtype) as int,
                );
            }
        },
        StateRequirement::Recurrent(spec) => {
            let v = spec@;
            let m = v.matrix@;
            let c = v.convolution@;
            lemma_nonnegative_product(m.matrix_count as int, m.rows as int);
            lemma_nonnegative_product(m.matrix_count * m.rows, m.columns as int);
            lemma_nonnegative_product(m.matrix_count * m.rows * m.columns, v.layer_count as int);
            lemma_nonnegative_product(
                m.matrix_count * m.rows * m.columns * v.layer_count,
                crate::engine::tensor::width_of(v.matrix_dtype) as int,
            );
            lemma_nonnegative_product(c.channels as int, c.history_tokens as int);
            lemma_nonnegative_product(c.channels * c.history_tokens, v.layer_count as int);
            lemma_nonnegative_product(
                c.channels * c.history_tokens * v.layer_count,
                crate::engine::tensor::width_of(v.convolution_dtype) as int,
            );
        },
    }
}

proof fn lemma_nonnegative_product(x: int, y: int)
    requires
        x >= 0,
        y >= 0,
    ensures
        x * y >= 0,
{
    assert(x * y >= 0) by (nonlinear_arith)
        requires
            x >= 0,
            y >= 0,
    ;
}

/// Ownership of logical state. An implementation decides where state lives and whether it
/// can be allocated, and says in the specification functions what it answers and does.
pub trait StateManager: Sized + Send {
    /// What [`Self::validate`] answers.
    open spec fn spec_validate(&self, state: Seq<StateHandle>) -> Result<(), StateError> {
        arbitrary()
    }

    /// Whether [`Self::commit_batch`] may end with this result, leaving behind this manager
    /// and these sets.
    open spec fn commits(
        &self,
        states: Seq<Seq<StateHandle>>,
        positions: Seq<u32>,
        after: Self,
        states_after: Seq<Seq<StateHandle>>,
        result: Result<(), StateError>,
    ) -> bool {
        arbitrary()
    }

    /// Whether [`Self::release_set`] may end with this result and leave behind this manager.
    open spec fn releases(
        &self,
        state: Seq<StateHandle>,
        after: Self,
        result: Result<(), StateError>,
    ) -> bool {
        arbitrary()
    }

    /// Whether [`Self::allocate_kv`] may answer with this result and leave behind this manager.
    open spec fn allocates_kv(
        &self,
        spec: KvStateSpec,
        location: StateLocation,
        after: Self,
        result: Result<KvState, StateError>,
    ) -> bool {
        arbitrary()
    }

    /// Whether [`Self::allocate_recurrent`] may answer with this result and leave behind this
    /// manager.
    open spec fn allocates_recurrent(
        &self,
        spec: RecurrentStateSpec,
        location: StateLocation,
        after: Self,
        result: Result<RecurrentState, StateError>,
    ) -> bool {
        arbitrary()
    }

    /// Whether [`Self::commit`] may, other than as a batch of one, end with this result,
    /// leaving behind this manager and this set. An implementation that moves one set in an
    /// operation of its own says here what it does.
    open spec fn commits_one(
        &self,
        state: Seq<StateHandle>,
        position: u32,
        after: Self,
        state_after: Seq<StateHandle>,
        result: Result<(), StateError>,
    ) -> bool {
        false
    }

    /// Whether [`Self::release`] may end with this result and leave behind this manager.
    open spec fn releases_one(
        &self,
        handle: StateHandle,
        after: Self,
        result: Result<(), StateError>,
    ) -> bool {
        arbitrary()
    }

    /// # Errors
    /// Returns [`StateError`] unless every handle of the set is live as it stands.
    fn validate(&self, state: &InferenceStateSet) -> (r: Result<(), StateError>)
        ensures
            r == self.spec_validate(state@),
    ;

    /// # Errors
    /// Returns [`StateError`] when storage cannot satisfy the allocation.
    fn allocate_kv(&mut self, spec: KvStateSpec, location: StateLocation) -> (r: Result<
        KvState,
        StateError,
    >)
        ensures
            old(self).allocates_kv(spec, location, *final(self), r),
    ;

    /// # Errors
    /// Returns [`StateError`] when storage cannot satisfy the allocation.
    fn allocate_recurrent(&mut self, spec: RecurrentStateSpec, location: StateLocation) -> (r:
        Result<RecurrentState, StateError>)
        ensures
            old(self).allocates_recurrent(spec, location, *final(self), r),
    ;

    /// Move every set of a batch to its own position, or none of them.
    ///
    /// # Errors
    /// Returns [`StateError`] when the state transition cannot be committed.
    fn commit_batch(&mut self, states: &mut [InferenceStateSet], positions: &[u32]) -> (r: Result<
        (),
        StateError,
    >)
        ensures
            final(states)@.len() == old(states)@.len(),
            old(self).commits(
                held(old(states)@),
                positions@,
                *final(self),
                held(final(states)@),
                r,
            ),
    ;

    /// Move one set to a position, as a batch of one. A set that cannot be moved stays as it
    /// is.
    ///
    /// # Errors
    /// Returns [`StateError`] when the state transition cannot be committed.
    fn commit(&mut self, state: &mut InferenceStateSet, token_position: u32) -> (r: Result<
        (),
        StateError,
    >)
        ensures
            (exists|after: Seq<Seq<StateHandle>>| #[trigger]
                old(self).commits(
                    seq![old(state)@],
                    seq![token_position],
                    *final(self),
                    after,
                    r,
                ) && after.len() == 1 && final(state)@ == (if r is Ok {
                    after[0]
                } else {
                    old(state)@
                })) || old(self).commits_one(
                old(state)@,
                token_position,
                *final(self),
                final(state)@,
                r,
            ),
        default_ensures
            exists|after: Seq<Seq<StateHandle>>| #[trigger]
                old(self).commits(
                    seq![old(state)@],
                    seq![token_position],
                    *final(self),
                    after,
                    r,
                ) && after.len() == 1 && final(state)@ == (if r is Ok {
                    after[0]
                } else {
                    old(state)@
                }),
    {
        let mut states: Vec<InferenceStateSet> = Vec::new();
        states.push(state.clone());
        let mut positions: Vec<u32> = Vec::new();
        positions.push(token_position);
        assert(held(states@) =~= seq![state@]);
        assert(positions@ =~= seq![token_position]);
        let outcome = self.commit_batch(states.as_mut_slice(), positions.as_slice());
        let ghost after = held(states@);
        assert(old(self).commits(seq![old(state)@], seq![token_position], *self, after, outcome));
        assert(after.len() == 1);
        if outcome.is_ok() {
            assert(after[0] == states@[0]@);
            if let Some(committed) = states.pop() {
                *state = committed;
            }
        }
        outcome
    }

    /// Release every state of a set, or none of them.
    ///
    /// # Errors
    /// Returns [`StateError::InvalidHandle`] when a handle is unknown or was released.
    fn release_set(&mut self, state: &InferenceStateSet) -> (r: Result<(), StateError>)
        ensures
            old(self).releases(state@, *final(self), r),
    ;

    /// # Errors
    /// Returns [`StateError::InvalidHandle`] when the handle is unknown or was released.
    fn release(&mut self, handle: StateHandle) -> (r: Result<(), StateError>)
        ensures
            old(self).releases_one(handle, *final(self), r),
    ;
}

impl StateManager for LogicalStateManager {
    /// A set is valid while every allocation behind it is live as the set describes it.
    open spec fn spec_validate(&self, state: Seq<StateHandle>) -> Result<(), StateError> {
        if owns_all(self@.allocations, state) {
            Ok(())
        } else {
            Err(StateError::InvalidHandle)
        }
    }

    /// All sets move together, handles and allocations alike, or nothing changes.
    open spec fn commits(
        &self,
        states: Seq<Seq<StateHandle>>,
        positions: Seq<u32>,
        after: Self,
        states_after: Seq<Seq<StateHandle>>,
        result: Result<(), StateError>,
    ) -> bool {
        if states.len() != positions.len() {
            &&& result == Err::<(), StateError>(StateError::PositionMismatch)
            &&& after@ == self@
            &&& states_after == states
        } else {
            match batch_defect(self@.allocations, states, positions, 0) {
                Some(error) => {
                    &&& result == Err::<(), StateError>(error)
                    &&& after@ == self@
                    &&& states_after == states
                },
                None => {
                    &&& result is Ok
                    &&& after@ == self@.with(
                        batch_moved(self@.allocations, states, positions, positions.len()),
                    )
                    &&& states_after == Seq::new(
                        positions.len(),
                        |i: int| at_position(states[i], positions[i]),
                    )
                },
            }
        }
    }

    /// A set is released whole, and only while every allocation behind it is live.
    open spec fn releases(
        &self,
        state: Seq<StateHandle>,
        after: Self,
        result: Result<(), StateError>,
    ) -> bool {
        if owns_all(self@.allocations, state) {
            result is Ok && after@ == self@.with(without(self@.allocations, state, state.len()))
        } else {
            result == Err::<(), StateError>(StateError::InvalidHandle) && after@ == self@
        }
    }

    /// What is refused changes nothing; what is granted is issued the next identity, at the
    /// start of its sequence.
    open spec fn allocates_kv(
        &self,
        spec: KvStateSpec,
        location: StateLocation,
        after: Self,
        result: Result<KvState, StateError>,
    ) -> bool {
        match self@.refusal(StateRequirement::FullAttentionKv(spec), location) {
            Some(error) => result == Err::<KvState, StateError>(error) && after@ == self@,
            None => {
                &&& result is Ok
                &&& result->Ok_0@.id@ == self@.next_id
                &&& result->Ok_0@.requirement == StateRequirement::FullAttentionKv(spec)
                &&& result->Ok_0@.location == location
                &&& result->Ok_0@.token_position == 0
                &&& after@ == self@.allocated(StateRequirement::FullAttentionKv(spec), location)
            },
        }
    }

    /// As for attention state.
    open spec fn allocates_recurrent(
        &self,
        spec: RecurrentStateSpec,
        location: StateLocation,
        after: Self,
        result: Result<RecurrentState, StateError>,
    ) -> bool {
        match self@.refusal(StateRequirement::Recurrent(spec), location) {
            Some(error) => result == Err::<RecurrentState, StateError>(error) && after@ == self@,
            None => {
                &&& result is Ok
                &&& result->Ok_0@.id@ == self@.next_id
                &&& result->Ok_0@.requirement == StateRequirement::Recurrent(spec)
                &&& result->Ok_0@.location == location
                &&& result->Ok_0@.token_position == 0
                &&& after@ == self@.allocated(StateRequirement::Recurrent(spec), location)
            },
        }
    }

    /// A set moves with its allocations, or stays with them.
    open spec fn commits_one(
        &self,
        state: Seq<StateHandle>,
        position: u32,
        after: Self,
        state_after: Seq<StateHandle>,
        result: Result<(), StateError>,
    ) -> bool {
        match move_defect(self@.allocations, state, position, 0) {
            Some(error) => {
                &&& result == Err::<(), StateError>(error)
                &&& after@ == self@
                &&& state_after == state
            },
            None => {
                &&& result is Ok
                &&& after@ == self@.with(moved(self@.allocations, state, position, state.len()))
                &&& state_after == at_position(state, position)
            },
        }
    }

    /// A handle is released while its allocation is live as it describes it.
    open spec fn releases_one(
        &self,
        handle: StateHandle,
        after: Self,
        result: Result<(), StateError>,
    ) -> bool {
        if owns(self@.allocations, handle) {
            result is Ok && after@ == self@.with(self@.allocations.remove(handle.id@))
        } else {
            result == Err::<(), StateError>(StateError::InvalidHandle) && after@ == self@
        }
    }

    fn validate(&self, state: &InferenceStateSet) -> (r: Result<(), StateError>)
    {
        let states = state.states();
        let mut index: usize = 0;
        while index < states.len()
            invariant
                index <= states.len(),
                handles(states@) == state@,
                forall|i: int|
                    0 <= i < index ==> owns(self@.allocations, #[trigger] state@[i]),
            decreases states.len() - index,
        {
            assert(handles(states@)[index as int] == states@[index as int]@);
            if !self.ledger.find(states[index].handle()) {
                assert(!owns(self@.allocations, state@[index as int]));
                return Err(StateError::InvalidHandle);
            }
            index += 1;
        }
        Ok(())
    }

    fn allocate_kv(&mut self, spec: KvStateSpec, location: StateLocation) -> (r: Result<
        KvState,
        StateError,
    >)
        ensures
            final(self)@.wf(),
    {
        match self.reserve(StateRequirement::FullAttentionKv(spec), location) {
            Ok(handle) => match KvState::new(handle, spec) {
                Some(state) => Ok(state),
                None => Err(StateError::UnsupportedRequirement),
            },
            Err(error) => Err(error),
        }
    }

    fn allocate_recurrent(&mut self, spec: RecurrentStateSpec, location: StateLocation) -> (r:
        Result<RecurrentState, StateError>)
        ensures
            final(self)@.wf(),
    {
        match self.reserve(StateRequirement::Recurrent(spec), location) {
            Ok(handle) => match RecurrentState::new(handle, spec) {
                Some(state) => Ok(state),
                None => Err(StateError::UnsupportedRequirement),
            },
            Err(error) => Err(error),
        }
    }

    fn commit_batch(&mut self, states: &mut [InferenceStateSet], positions: &[u32]) -> (r:
        Result<(), StateError>)
        ensures
            final(self)@.wf(),
            r is Err ==> final(states)@ == old(states)@,
    {
        proof {
            use_type_invariant(&*self);
        }
        if states.len() != positions.len() {
            return Err(StateError::PositionMismatch);
        }
        let ghost before = self@;
        let ghost sets = held(states@);
        let mut index: usize = 0;
        while index < states.len()
            invariant
                index <= states.len() == positions@.len(),
                self@ == before,
                before == old(self)@,
                before.wf(),
                states@ == old(states)@,
                sets == held(states@),
                batch_defect(before.allocations, sets, positions@, 0) == batch_defect(
                    before.allocations,
                    sets,
                    positions@,
                    index as int,
                ),
                forall|k: int, i: int|
                    0 <= k < index && 0 <= i < sets[k].len()
                        ==> before.allocations.contains_key((#[trigger] sets[k][i]).id@),
            decreases states.len() - index,
        {
            assert(sets[index as int] == states@[index as int]@);
            match self.check_move(&states[index], positions[index]) {
                Ok(()) => {
                    proof {
                        lemma_no_move_defect(
                            before.allocations,
                            sets[index as int],
                            positions@[index as int],
                            0,
                        );
                        assert forall|i: int| 0 <= i < sets[index as int].len() implies
                            before.allocations.contains_key(
                            (#[trigger] sets[index as int][i]).id@,
                        ) by {
                            assert(owns(before.allocations, sets[index as int][i]));
                        }
                    }
                },
                Err(error) => {
                    return Err(error);
                },
            }
            index += 1;
        }
        let mut done: usize = 0;
        while done < states.len()
            invariant
                done <= states.len() == positions@.len(),
                states@.len() == old(states)@.len(),
                sets == held(old(states)@),
                before.wf(),
                self@ == before.with(
                    batch_moved(before.allocations, sets, positions@, done as nat),
                ),
                self@.wf(),
                self@.allocations.dom() == before.allocations.dom(),
                forall|k: int| 0 <= k < done ==> (#[trigger] states@[k])@ == at_position(
                    old(states)@[k]@,
                    positions@[k],
                ),
                forall|k: int|
                    done <= k < states@.len() ==> #[trigger] states@[k] == old(states)@[k],
                forall|k: int, i: int|
                    0 <= k < sets.len() && 0 <= i < sets[k].len()
                        ==> before.allocations.contains_key((#[trigger] sets[k][i]).id@),
            decreases states.len() - done,
        {
            assert(sets[done as int] == old(states)@[done as int]@);
            assert(states@[done as int] == old(states)@[done as int]);
            let ghost middle = self@;
            assert forall|i: int| 0 <= i < sets[done as int].len() implies
                self@.allocations.contains_key((#[trigger] sets[done as int][i]).id@) by {
                assert(before.allocations.dom().contains(sets[done as int][i].id@));
                assert(self@.allocations.dom().contains(sets[done as int][i].id@));
            }
            proof {
                lemma_moved(middle, sets[done as int], positions@[done as int], sets[done as int].len());
            }
            self.apply_move(&states[done], positions[done]);
            let next = states[done].moved_to(positions[done]);
            states[done] = next;
            done += 1;
        }
        proof {
            assert(held(states@) =~= Seq::new(
                positions@.len(),
                |i: int| at_position(sets[i], positions@[i]),
            ));
        }
        Ok(())
    }

    fn commit(&mut self, state: &mut InferenceStateSet, token_position: u32) -> (r: Result<
        (),
        StateError,
    >)
        ensures
            final(self)@.wf(),
            old(self).commits_one(
                old(state)@,
                token_position,
                *final(self),
                final(state)@,
                r,
            ),
    {
        proof {
            use_type_invariant(&*self);
        }
        match self.check_move(state, token_position) {
            Ok(()) => {},
            Err(error) => {
                return Err(error);
            },
        }
        proof {
            lemma_no_move_defect(self@.allocations, state@, token_position, 0);
            assert forall|i: int| 0 <= i < state@.len() implies self@.allocations.contains_key(
                (#[trigger] state@[i]).id@,
            ) by {
                assert(owns(self@.allocations, state@[i]));
            }
        }
        self.apply_move(state, token_position);
        let next = state.moved_to(token_position);
        *state = next;
        Ok(())
    }

    fn release_set(&mut self, state: &InferenceStateSet) -> (r: Result<(), StateError>)
        ensures
            final(self)@.wf(),
    {
        proof {
            use_type_invariant(&*self);
        }
        match self.validate(state) {
            Ok(()) => {},
            Err(error) => {
                return Err(error);
            },
        }
        let ghost before = self@;
        let states = state.states();
        let mut ledger = self.take_ledger();
        let mut index: usize = 0;
        while index < states.len()
            invariant
                index <= states.len(),
                handles(states@) == state@,
                coherent(state@),
                before.wf(),
                owns_all(before.allocations, state@),
                ledger.balanced(),
                ledger.next_id == before.next_id,
                ledger.allocations@ == without(before.allocations, state@, index as nat),
            decreases states.len() - index,
        {
            proof {
                lemma_without(before, state@, index as nat);
                assert(handles(states@)[index as int] == states@[index as int]@);
                assert(without(before.allocations, state@, index as nat).contains_key(
                    state@[index as int].id@,
                ));
            }
            ledger.remove(states[index].handle().id.get());
            index += 1;
        }
        proof {
            lemma_without(before, state@, index as nat);
        }
        self.ledger = ledger;
        Ok(())
    }

    fn release(&mut self, handle: StateHandle) -> (r: Result<(), StateError>)
        ensures
            final(self)@.wf(),
    {
        proof {
            use_type_invariant(&*self);
        }
        if !self.ledger.find(&handle) {
            return Err(StateError::InvalidHandle);
        }
        proof {
            lemma_removed_wf(self@, handle.id@);
        }
        let mut ledger = self.take_ledger();
        ledger.remove(handle.id.get());
        self.ledger = ledger;
        Ok(())
    }
}

/// Releasing what was allocated restores the bytes used at every location, and the
/// identity is never issued again.
pub proof fn law_release_undoes_allocation(
    manager: StateManagerView,
    requirement: StateRequirement,
    location: StateLocation,
)
    requires
        manager.wf(),
        manager.refusal(requirement, location) is None,
    ensures
        ({
            let after = manager.allocated(requirement, location);
            &&& used(after.allocations, on_device(location)) == used(
                manager.allocations,
                on_device(location),
            ) + requirement.bytes()
            &&& used(after.allocations, !on_device(location)) == used(
                manager.allocations,
                !on_device(location),
            )
            &&& after.allocations.remove(manager.next_id) == manager.allocations
            &&& !manager.allocations.contains_key(manager.next_id)
            &&& after.next_id > manager.next_id
        }),
{
    let after = manager.allocated(requirement, location);
    let record = after.allocations[manager.next_id];
    lemma_used_insert(manager.allocations, manager.next_id, record, true);
    lemma_used_insert(manager.allocations, manager.next_id, record, false);
    lemma_requirement_bytes(requirement);
    assert(after.allocations.remove(manager.next_id) =~= manager.allocations);
}

/// Committing a live set moves its allocations and its handles together: the set is live
/// at the new position, and no byte count changes.
pub proof fn law_commit_keeps_sets_live(
    manager: StateManagerView,
    states: Seq<StateHandle>,
    position: u32,
)
    requires
        manager.wf(),
        coherent(states),
        move_defect(manager.allocations, states, position, 0) is None,
    ensures
        ({
            let after = moved(manager.allocations, states, position, states.len());
            &&& owns_all(after, at_position(states, position))
            &&& used(after, true) == used(manager.allocations, true)
            &&& used(after, false) == used(manager.allocations, false)
            &&& after.dom() == manager.allocations.dom()
        }),
{
    lemma_no_move_defect(manager.allocations, states, position, 0);
    assert(owns_all(manager.allocations, states));
    lemma_owned_states_are_distinct(manager.allocations, states);
    assert forall|i: int| 0 <= i < states.len() implies manager.allocations.contains_key(
        (#[trigger] states[i]).id@,
    ) by {
        assert(owns(manager.allocations, states[i]));
    }
    lemma_moved(manager, states, position, states.len());
    lemma_moved_records(manager.allocations, states, position, states.len());
    let after = moved(manager.allocations, states, position, states.len());
    let there = at_position(states, position);
    assert forall|i: int| 0 <= i < there.len() implies owns(after, #[trigger] there[i]) by {
        assert(there[i] == states[i].at(position));
        assert(owns(manager.allocations, states[i]));
        assert(after.dom().contains(states[i].id@));
    }
}

proof fn lemma_moved_records(
    allocations: Allocations,
    states: Seq<StateHandle>,
    position: u32,
    n: nat,
)
    requires
        n <= states.len(),
        forall|i: int, j: int|
            0 <= i < j < states.len() ==> (#[trigger] states[i]).id@ != (#[trigger] states[j]).id@,
    ensures
        forall|i: int|
            0 <= i < n ==> moved(allocations, states, position, n)[(#[trigger] states[i]).id@] == (
            AllocationRecord { token_position: position, ..allocations[states[i].id@] }),
        forall|i: int|
            n <= i < states.len() ==> moved(allocations, states, position, n)[(
            #[trigger] states[i]).id@] == allocations[states[i].id@],
    decreases n,
{
    if n > 0 {
        lemma_moved_records(allocations, states, position, (n - 1) as nat);
    }
}

} // verus!
