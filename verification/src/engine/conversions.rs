//! How the engine's errors become errors of the layer above.

use crate::engine::backend::BackendError;
use crate::engine::execution::PlanError;
use crate::engine::model::ModelError;
use crate::engine::runtime::RuntimeError;
use crate::engine::scheduler::SchedulerError;
use crate::engine::serving::RequestSlotError;
use crate::engine::serving_runtime::ServingRuntimeError;
use crate::engine::state::StateError;
use vstd::prelude::*;

verus! {

impl From<ModelError> for RuntimeError {
    fn from(error: ModelError) -> (r: Self) {
        RuntimeError::Model(error)
    }
}

impl vstd::std_specs::convert::FromSpecImpl<ModelError> for RuntimeError {
    open spec fn obeys_from_spec() -> bool {
        true
    }

    open spec fn from_spec(error: ModelError) -> Self {
        RuntimeError::Model(error)
    }
}

impl From<BackendError> for RuntimeError {
    fn from(error: BackendError) -> (r: Self) {
        RuntimeError::Backend(error)
    }
}

impl vstd::std_specs::convert::FromSpecImpl<BackendError> for RuntimeError {
    open spec fn obeys_from_spec() -> bool {
        true
    }

    open spec fn from_spec(error: BackendError) -> Self {
        RuntimeError::Backend(error)
    }
}

impl From<StateError> for RuntimeError {
    fn from(error: StateError) -> (r: Self) {
        RuntimeError::State(error)
    }
}

impl vstd::std_specs::convert::FromSpecImpl<StateError> for RuntimeError {
    open spec fn obeys_from_spec() -> bool {
        true
    }

    open spec fn from_spec(error: StateError) -> Self {
        RuntimeError::State(error)
    }
}

impl From<PlanError> for RuntimeError {
    fn from(error: PlanError) -> (r: Self) {
        RuntimeError::Plan(error)
    }
}

impl vstd::std_specs::convert::FromSpecImpl<PlanError> for RuntimeError {
    open spec fn obeys_from_spec() -> bool {
        true
    }

    open spec fn from_spec(error: PlanError) -> Self {
        RuntimeError::Plan(error)
    }
}

impl From<RequestSlotError> for SchedulerError {
    fn from(error: RequestSlotError) -> (r: Self) {
        SchedulerError::Slot(error)
    }
}

impl vstd::std_specs::convert::FromSpecImpl<RequestSlotError> for SchedulerError {
    open spec fn obeys_from_spec() -> bool {
        true
    }

    open spec fn from_spec(error: RequestSlotError) -> Self {
        SchedulerError::Slot(error)
    }
}

impl From<PlanError> for ServingRuntimeError {
    fn from(error: PlanError) -> (r: Self) {
        ServingRuntimeError::Plan(error)
    }
}

impl vstd::std_specs::convert::FromSpecImpl<PlanError> for ServingRuntimeError {
    open spec fn obeys_from_spec() -> bool {
        true
    }

    open spec fn from_spec(error: PlanError) -> Self {
        ServingRuntimeError::Plan(error)
    }
}

impl From<SchedulerError> for ServingRuntimeError {
    fn from(error: SchedulerError) -> (r: Self) {
        ServingRuntimeError::Scheduler(error)
    }
}

impl vstd::std_specs::convert::FromSpecImpl<SchedulerError> for ServingRuntimeError {
    open spec fn obeys_from_spec() -> bool {
        true
    }

    open spec fn from_spec(error: SchedulerError) -> Self {
        ServingRuntimeError::Scheduler(error)
    }
}

} // verus!
