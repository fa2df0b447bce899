//! What the engine's errors say.

use crate::engine::backend::{BackendError, BackendIdError, BackendSubmissionId};
use crate::engine::execution::PlanError;
use crate::engine::model::{ModelError, ModelIdError};
use crate::engine::policy::PolicyError;
use crate::engine::qualification::{ExecutionVariantIdError, QualificationError};
use crate::engine::readiness::ReadinessError;
use crate::engine::request::{RequestError, RequestId, SamplingError};
use crate::engine::residency::ResidencyError;
use crate::engine::runtime::{RuntimeError, RuntimeStateError};
use crate::engine::scheduler::SchedulerError;
use crate::engine::serving::RequestSlotError;
use crate::engine::serving_runtime::ServingRuntimeError;
use crate::engine::state::{
    ConvolutionStateShape, KvStateSpec, RecurrentMatrixShape, RecurrentStateSpec, StateError,
    StateRequirement, StateSpecError,
};
use crate::engine::tensor::DataType;
use crate::engine::weights::{WeightBindingError, WeightSpecError};
use crate::text::{debug_text, decimal, number, quoted};
use vstd::prelude::*;

verus! {

impl BackendIdError {
    /// What an empty backend identity says.
    pub open spec fn text(self) -> Seq<char> {
        "backend identity must not be empty"@
    }

    /// Says an empty backend identity in words.
    #[must_use]
    pub fn message(&self) -> (r: String)
        ensures
            r@ == self.text(),
    {
        "backend identity must not be empty".to_owned()
    }
}

impl ModelIdError {
    /// What an empty model identity says.
    pub open spec fn text(self) -> Seq<char> {
        "model identity must not be empty"@
    }

    /// Says an empty model identity in words.
    #[must_use]
    pub fn message(&self) -> (r: String)
        ensures
            r@ == self.text(),
    {
        "model identity must not be empty".to_owned()
    }
}

impl ExecutionVariantIdError {
    /// What an empty variant identity says.
    pub open spec fn text(self) -> Seq<char> {
        "execution variant identity must not be empty"@
    }

    /// Says an empty variant identity in words.
    #[must_use]
    pub fn message(&self) -> (r: String)
        ensures
            r@ == self.text(),
    {
        "execution variant identity must not be empty".to_owned()
    }
}

impl BackendError {
    /// What a backend error says.
    pub open spec fn text(self) -> Seq<char> {
        match self {
            BackendError::Unsupported(capability) => "backend does not support "@ + capability@,
            BackendError::PlanMismatch => "execution plan targets a different backend/device"@,
            BackendError::InvalidPlan(error) => "invalid execution plan: "@ + error.text(),
            BackendError::StateMismatch(reason) => "state does not satisfy execution: "@ + reason@,
            BackendError::StateCountMismatch => {
                "execution batch and inference-state counts differ"@
            },
            BackendError::UnknownSubmission(id) => {
                "submission "@ + decimal(id@ as nat) + " is unknown"@
            },
            BackendError::WaitExhausted => "submission outlasted every poll"@,
            BackendError::ExecutionFailed(reason) => "execution failed: "@ + reason@,
        }
    }

    /// Says a backend error in words.
    #[must_use]
    pub fn message(&self) -> (r: String)
        ensures
            r@ == self.text(),
    {
        match self {
            BackendError::Unsupported(capability) => {
                let mut text = "backend does not support ".to_owned();
                text.append(*capability);
                text
            },
            BackendError::PlanMismatch => {
                "execution plan targets a different backend/device".to_owned()
            },
            BackendError::InvalidPlan(error) => {
                let mut text = "invalid execution plan: ".to_owned();
                text.append(error.message().as_str());
                text
            },
            BackendError::StateMismatch(reason) => {
                let mut text = "state does not satisfy execution: ".to_owned();
                text.append(*reason);
                text
            },
            BackendError::StateCountMismatch => {
                "execution batch and inference-state counts differ".to_owned()
            },
            BackendError::UnknownSubmission(id) => {
                let mut text = "submission ".to_owned();
                text.append(number(id.get() as u64).as_str());
                text.append(" is unknown");
                text
            },
            BackendError::WaitExhausted => "submission outlasted every poll".to_owned(),
            BackendError::ExecutionFailed(reason) => {
                let mut text = "execution failed: ".to_owned();
                text.append(reason.as_str());
                text
            },
        }
    }
}

impl PlanError {
    /// What a plan error says.
    pub open spec fn text(self) -> Seq<char> {
        match self {
            PlanError::EmptyStages => "execution plan must contain at least one stage"@,
            PlanError::EmptyBatch => "execution batch must contain at least one segment"@,
            PlanError::DuplicateBatchRequest => "execution batch contains duplicate request work"@,
            PlanError::InvalidSegmentBatchSize => {
                "an execution segment describes exactly one request"@
            },
            PlanError::ZeroWork => "execution segment must contain non-zero work"@,
            PlanError::SegmentPhaseMismatch => {
                "execution segment phase is not in the prepared plan"@
            },
            PlanError::SegmentStateUndeclared => {
                "execution segment requires undeclared model state"@
            },
            PlanError::WeightBindingMismatch => {
                "weight binding does not match the execution model/device"@
            },
            PlanError::ResidencyModelMismatch => {
                "model residency plan describes a different model"@
            },
            PlanError::IncompatibleVariant => "execution variant is qualified as incompatible"@,
            PlanError::TokenInputRange => "token input reaches past its prompt"@,
            PlanError::TokenInputMismatch => "token input does not match its execution segment"@,
        }
    }

    /// Says a plan error in words.
    #[must_use]
    pub fn message(&self) -> (r: String)
        ensures
            r@ == self.text(),
    {
        match self {
            PlanError::EmptyStages => "execution plan must contain at least one stage".to_owned(),
            PlanError::EmptyBatch => "execution batch must contain at least one segment".to_owned(),
            PlanError::DuplicateBatchRequest => {
                "execution batch contains duplicate request work".to_owned()
            },
            PlanError::InvalidSegmentBatchSize => {
                "an execution segment describes exactly one request".to_owned()
            },
            PlanError::ZeroWork => "execution segment must contain non-zero work".to_owned(),
            PlanError::SegmentPhaseMismatch => {
                "execution segment phase is not in the prepared plan".to_owned()
            },
            PlanError::SegmentStateUndeclared => {
                "execution segment requires undeclared model state".to_owned()
            },
            PlanError::WeightBindingMismatch => {
                "weight binding does not match the execution model/device".to_owned()
            },
            PlanError::ResidencyModelMismatch => {
                "model residency plan describes a different model".to_owned()
            },
            PlanError::IncompatibleVariant => {
                "execution variant is qualified as incompatible".to_owned()
            },
            PlanError::TokenInputRange => "token input reaches past its prompt".to_owned(),
            PlanError::TokenInputMismatch => {
                "token input does not match its execution segment".to_owned()
            },
        }
    }
}

impl ModelError {
    /// What a model error says.
    pub open spec fn text(self) -> Seq<char> {
        match self {
            ModelError::InvalidDescription(reason) => "invalid model description: "@ + reason@,
            ModelError::PlanModelMismatch => "execution plan targets a different model"@,
            ModelError::UnknownRegion(region) => {
                "execution plan references unknown region "@ + decimal(region.0 as nat)
            },
            ModelError::UndeclaredState(requirement) => {
                "execution plan requires undeclared state: "@ + requirement.shown_text()
            },
        }
    }

    /// Says a model error in words.
    #[must_use]
    pub fn message(&self) -> (r: String)
        ensures
            r@ == self.text(),
    {
        match self {
            ModelError::InvalidDescription(reason) => {
                let mut text = "invalid model description: ".to_owned();
                text.append(*reason);
                text
            },
            ModelError::PlanModelMismatch => "execution plan targets a different model".to_owned(),
            ModelError::UnknownRegion(region) => {
                let mut text = "execution plan references unknown region ".to_owned();
                text.append(number(region.get() as u64).as_str());
                text
            },
            ModelError::UndeclaredState(requirement) => {
                let mut text = "execution plan requires undeclared state: ".to_owned();
                text.append(requirement.shown().as_str());
                text
            },
        }
    }
}

impl PolicyError {
    /// What a policy error says.
    pub open spec fn text(self) -> Seq<char> {
        match self {
            PolicyError::ZeroBatchBudget => "batch budgets must be greater than zero"@,
            PolicyError::ZeroDraftBudget => "speculation draft budget must be greater than zero"@,
            PolicyError::SpeculationUnavailable => "native MTP is not advertised by the model"@,
            PolicyError::DraftBudgetExceedsCapability => {
                "speculation draft budget exceeds model capability"@
            },
        }
    }

    /// Says a policy error in words.
    #[must_use]
    pub fn message(&self) -> (r: String)
        ensures
            r@ == self.text(),
    {
        match self {
            PolicyError::ZeroBatchBudget => "batch budgets must be greater than zero".to_owned(),
            PolicyError::ZeroDraftBudget => {
                "speculation draft budget must be greater than zero".to_owned()
            },
            PolicyError::SpeculationUnavailable => {
                "native MTP is not advertised by the model".to_owned()
            },
            PolicyError::DraftBudgetExceedsCapability => {
                "speculation draft budget exceeds model capability".to_owned()
            },
        }
    }
}

impl QualificationError {
    /// What a qualification error says.
    pub open spec fn text(self) -> Seq<char> {
        match self {
            QualificationError::EmptyIdentity => "qualification identity must not be empty"@,
            QualificationError::VariantMismatch => {
                "qualification evidence names another execution variant"@
            },
        }
    }

    /// Says a qualification error in words.
    #[must_use]
    pub fn message(&self) -> (r: String)
        ensures
            r@ == self.text(),
    {
        match self {
            QualificationError::EmptyIdentity => {
                "qualification identity must not be empty".to_owned()
            },
            QualificationError::VariantMismatch => {
                "qualification evidence names another execution variant".to_owned()
            },
        }
    }
}

impl ReadinessError {
    /// What a refused transition says.
    pub open spec fn text(self) -> Seq<char> {
        match self {
            ReadinessError::InvalidTransition => "runtime readiness transition is invalid"@,
        }
    }

    /// Says a refused transition in words.
    #[must_use]
    pub fn message(&self) -> (r: String)
        ensures
            r@ == self.text(),
    {
        match self {
            ReadinessError::InvalidTransition => {
                "runtime readiness transition is invalid".to_owned()
            },
        }
    }
}

impl SamplingError {
    /// What a sampling error says.
    pub open spec fn text(self) -> Seq<char> {
        match self {
            SamplingError::InvalidTemperature => "temperature must be finite and non-negative"@,
            SamplingError::InvalidTopP => "top_p must be finite and in the range (0, 1]"@,
            SamplingError::EmptyLogits => "logits must contain at least one value"@,
            SamplingError::NonFiniteLogit => "logits must contain only finite values"@,
            SamplingError::InvalidRandomUnit => "random draw must be finite and in the range [0, 1)"@,
            SamplingError::TokenIndexOverflow => "token index does not fit in u32"@,
        }
    }

    /// Says a sampling error in words.
    #[must_use]
    pub fn message(&self) -> (r: String)
        ensures
            r@ == self.text(),
    {
        match self {
            SamplingError::InvalidTemperature => {
                "temperature must be finite and non-negative".to_owned()
            },
            SamplingError::InvalidTopP => "top_p must be finite and in the range (0, 1]".to_owned(),
            SamplingError::EmptyLogits => "logits must contain at least one value".to_owned(),
            SamplingError::NonFiniteLogit => "logits must contain only finite values".to_owned(),
            SamplingError::InvalidRandomUnit => "random draw must be finite and in the range [0, 1)".to_owned(),
            SamplingError::TokenIndexOverflow => "token index does not fit in u32".to_owned(),
        }
    }
}

impl RequestError {
    /// What a request error says.
    pub open spec fn text(self) -> Seq<char> {
        match self {
            RequestError::ZeroOutputBudget => "max_output_tokens must be greater than zero"@,
        }
    }

    /// Says a request error in words.
    #[must_use]
    pub fn message(&self) -> (r: String)
        ensures
            r@ == self.text(),
    {
        match self {
            RequestError::ZeroOutputBudget => {
                "max_output_tokens must be greater than zero".to_owned()
            },
        }
    }
}

impl ResidencyError {
    /// What a residency error says.
    pub open spec fn text(self) -> Seq<char> {
        match self {
            ResidencyError::EmptyResource => "model resource identity must not be empty"@,
            ResidencyError::DuplicateResource(resource) => {
                "model residency overrides resource "@ + debug_text(resource@) + " more than once"@
            },
        }
    }

    /// Says a residency error in words.
    #[must_use]
    pub fn message(&self) -> (r: String)
        ensures
            r@ == self.text(),
    {
        match self {
            ResidencyError::EmptyResource => "model resource identity must not be empty".to_owned(),
            ResidencyError::DuplicateResource(resource) => {
                let mut text = "model residency overrides resource ".to_owned();
                text.append(quoted(resource.as_str()).as_str());
                text.append(" more than once");
                text
            },
        }
    }
}

impl RuntimeError {
    /// What a runtime error says.
    pub open spec fn text(self) -> Seq<char> {
        match self {
            RuntimeError::Model(error) => "model validation failed: "@ + error.text(),
            RuntimeError::Backend(error) => "backend execution failed: "@ + error.text(),
            RuntimeError::State(error) => "state commitment failed: "@ + error.text(),
            RuntimeError::Plan(error) => "execution batch is invalid: "@ + error.text(),
            RuntimeError::StateCountMismatch => {
                "execution batch and inference-state counts differ"@
            },
            RuntimeError::PositionOverflow => "execution position overflowed"@,
            RuntimeError::SubmissionConsumed => "runtime submission was already consumed"@,
            RuntimeError::CompletionMismatch => {
                "backend completion does not match submitted execution batch"@
            },
            RuntimeError::WaitExhausted => "submission outlasted every poll"@,
        }
    }

    /// Says a runtime error in words.
    #[must_use]
    pub fn message(&self) -> (r: String)
        ensures
            r@ == self.text(),
    {
        match self {
            RuntimeError::Model(error) => {
                let mut text = "model validation failed: ".to_owned();
                text.append(error.message().as_str());
                text
            },
            RuntimeError::Backend(error) => {
                let mut text = "backend execution failed: ".to_owned();
                text.append(error.message().as_str());
                text
            },
            RuntimeError::State(error) => {
                let mut text = "state commitment failed: ".to_owned();
                text.append(error.message().as_str());
                text
            },
            RuntimeError::Plan(error) => {
                let mut text = "execution batch is invalid: ".to_owned();
                text.append(error.message().as_str());
                text
            },
            RuntimeError::StateCountMismatch => {
                "execution batch and inference-state counts differ".to_owned()
            },
            RuntimeError::PositionOverflow => "execution position overflowed".to_owned(),
            RuntimeError::SubmissionConsumed => {
                "runtime submission was already consumed".to_owned()
            },
            RuntimeError::CompletionMismatch => {
                "backend completion does not match submitted execution batch".to_owned()
            },
            RuntimeError::WaitExhausted => "submission outlasted every poll".to_owned(),
        }
    }
}

impl SchedulerError {
    /// What a scheduler error says.
    pub open spec fn text(self) -> Seq<char> {
        match self {
            SchedulerError::InvalidConfig => "scheduler configuration is invalid"@,
            SchedulerError::Backpressure => "scheduler admission capacity is exhausted"@,
            SchedulerError::DuplicateRequest(id) => {
                "request "@ + decimal(id@ as nat) + " is already admitted"@
            },
            SchedulerError::UnknownRequest(id) => {
                "request "@ + decimal(id@ as nat) + " is unknown"@
            },
            SchedulerError::UnknownSubmission(id) => {
                "submission "@ + decimal(id@ as nat) + " is unknown"@
            },
            SchedulerError::DuplicateSubmission(id) => {
                "submission "@ + decimal(id@ as nat) + " is already in flight"@
            },
            SchedulerError::CompletionRequestMismatch => {
                "backend completion belongs to a different request"@
            },
            SchedulerError::StateCountMismatch => {
                "scheduled work and inference-state counts differ"@
            },
            SchedulerError::InvalidLifecycle => "request lifecycle does not permit this operation"@,
            SchedulerError::StaleWork => "scheduled work is stale or no longer runnable"@,
            SchedulerError::PositionOverflow => "request state position overflowed"@,
            SchedulerError::Slot(error) => "request slot error: "@ + error.text(),
        }
    }

    /// Says a scheduler error in words.
    #[must_use]
    pub fn message(&self) -> (r: String)
        ensures
            r@ == self.text(),
    {
        match self {
            SchedulerError::InvalidConfig => "scheduler configuration is invalid".to_owned(),
            SchedulerError::Backpressure => "scheduler admission capacity is exhausted".to_owned(),
            SchedulerError::DuplicateRequest(id) => {
                let mut text = "request ".to_owned();
                text.append(number(id.get() as u64).as_str());
                text.append(" is already admitted");
                text
            },
            SchedulerError::UnknownRequest(id) => {
                let mut text = "request ".to_owned();
                text.append(number(id.get() as u64).as_str());
                text.append(" is unknown");
                text
            },
            SchedulerError::UnknownSubmission(id) => {
                let mut text = "submission ".to_owned();
                text.append(number(id.get() as u64).as_str());
                text.append(" is unknown");
                text
            },
            SchedulerError::DuplicateSubmission(id) => {
                let mut text = "submission ".to_owned();
                text.append(number(id.get() as u64).as_str());
                text.append(" is already in flight");
                text
            },
            SchedulerError::CompletionRequestMismatch => {
                "backend completion belongs to a different request".to_owned()
            },
            SchedulerError::StateCountMismatch => {
                "scheduled work and inference-state counts differ".to_owned()
            },
            SchedulerError::InvalidLifecycle => {
                "request lifecycle does not permit this operation".to_owned()
            },
            SchedulerError::StaleWork => "scheduled work is stale or no longer runnable".to_owned(),
            SchedulerError::PositionOverflow => "request state position overflowed".to_owned(),
            SchedulerError::Slot(error) => {
                let mut text = "request slot error: ".to_owned();
                text.append(error.message().as_str());
                text
            },
        }
    }
}

impl RequestSlotError {
    /// What a slot error says.
    pub open spec fn text(self) -> Seq<char> {
        match self {
            RequestSlotError::DuplicateRequest(id) => {
                "request "@ + decimal(id@ as nat) + " is already active"@
            },
            RequestSlotError::UnknownSlot => "request slot is unknown or stale"@,
            RequestSlotError::SlotOverflow => "request slot table overflowed"@,
            RequestSlotError::InvalidTransition => "request lifecycle transition is invalid"@,
            RequestSlotError::SubmissionMismatch => {
                "completed submission does not own this request"@
            },
            RequestSlotError::StateUnavailable => "request inference state is not slot-owned"@,
            RequestSlotError::ProgressOverflow => "request progress is invalid or overflowed"@,
            RequestSlotError::RequestStillActive => "request slot cannot be removed while active"@,
        }
    }

    /// Says a slot error in words.
    #[must_use]
    pub fn message(&self) -> (r: String)
        ensures
            r@ == self.text(),
    {
        match self {
            RequestSlotError::DuplicateRequest(id) => {
                let mut text = "request ".to_owned();
                text.append(number(id.get() as u64).as_str());
                text.append(" is already active");
                text
            },
            RequestSlotError::UnknownSlot => "request slot is unknown or stale".to_owned(),
            RequestSlotError::SlotOverflow => "request slot table overflowed".to_owned(),
            RequestSlotError::InvalidTransition => {
                "request lifecycle transition is invalid".to_owned()
            },
            RequestSlotError::SubmissionMismatch => {
                "completed submission does not own this request".to_owned()
            },
            RequestSlotError::StateUnavailable => {
                "request inference state is not slot-owned".to_owned()
            },
            RequestSlotError::ProgressOverflow => {
                "request progress is invalid or overflowed".to_owned()
            },
            RequestSlotError::RequestStillActive => {
                "request slot cannot be removed while active".to_owned()
            },
        }
    }
}

impl ServingRuntimeError {
    /// What a serving error says.
    pub open spec fn text(self) -> Seq<char> {
        match self {
            ServingRuntimeError::PolicyMismatch => {
                "scheduler and execution plan use different policy versions"@
            },
            ServingRuntimeError::InvalidPrompt => {
                "serving prompt must contain a representable token sequence"@
            },
            ServingRuntimeError::PromptMissing(request) => {
                "prompt tokens for request "@ + decimal(request@ as nat) + " are unavailable"@
            },
            ServingRuntimeError::DecodeTokenMissing(request) => {
                "next decode token for request "@ + decimal(request@ as nat) + " is unavailable"@
            },
            ServingRuntimeError::SubmissionCollision(id) => {
                "backend reused live submission identity "@ + decimal(id@ as nat)
            },
            ServingRuntimeError::Plan(error) => {
                "serving execution batch is invalid: "@ + error.text()
            },
            ServingRuntimeError::Scheduler(error) => "serving scheduler failed: "@ + error.text(),
            ServingRuntimeError::Runtime(error) => "serving execution failed: "@ + error.text(),
        }
    }

    /// Says a serving error in words.
    #[must_use]
    pub fn message(&self) -> (r: String)
        ensures
            r@ == self.text(),
    {
        match self {
            ServingRuntimeError::PolicyMismatch => {
                "scheduler and execution plan use different policy versions".to_owned()
            },
            ServingRuntimeError::InvalidPrompt => {
                "serving prompt must contain a representable token sequence".to_owned()
            },
            ServingRuntimeError::PromptMissing(request) => {
                let mut text = "prompt tokens for request ".to_owned();
                text.append(number(request.get() as u64).as_str());
                text.append(" are unavailable");
                text
            },
            ServingRuntimeError::DecodeTokenMissing(request) => {
                let mut text = "next decode token for request ".to_owned();
                text.append(number(request.get() as u64).as_str());
                text.append(" is unavailable");
                text
            },
            ServingRuntimeError::SubmissionCollision(id) => {
                let mut text = "backend reused live submission identity ".to_owned();
                text.append(number(id.get() as u64).as_str());
                text
            },
            ServingRuntimeError::Plan(error) => {
                let mut text = "serving execution batch is invalid: ".to_owned();
                text.append(error.message().as_str());
                text
            },
            ServingRuntimeError::Scheduler(error) => {
                let mut text = "serving scheduler failed: ".to_owned();
                text.append(error.message().as_str());
                text
            },
            ServingRuntimeError::Runtime(error) => {
                let mut text = "serving execution failed: ".to_owned();
                text.append(error.message().as_str());
                text
            },
        }
    }
}

impl StateSpecError {
    /// What a state specification error says.
    pub open spec fn text(self) -> Seq<char> {
        match self {
            StateSpecError::ZeroDimension => "state dimensions must be greater than zero"@,
        }
    }

    /// Says a state specification error in words.
    #[must_use]
    pub fn message(&self) -> (r: String)
        ensures
            r@ == self.text(),
    {
        match self {
            StateSpecError::ZeroDimension => {
                "state dimensions must be greater than zero".to_owned()
            },
        }
    }
}

impl StateError {
    /// What a state error says.
    pub open spec fn text(self) -> Seq<char> {
        match self {
            StateError::UnsupportedRequirement => "state requirement is unsupported"@,
            StateError::UnsupportedLocation => "state location is unsupported by this manager"@,
            StateError::CapacityExceeded { requested_bytes, available_bytes } => {
                "state allocation requires "@ + decimal(requested_bytes as nat)
                    + " bytes, but only "@ + decimal(available_bytes as nat) + " are available"@
            },
            StateError::SizeOverflow => "state size calculation overflowed"@,
            StateError::InvalidHandle => "state handle is invalid or already released"@,
            StateError::DuplicateRequirement => "state requirement appears more than once"@,
            StateError::PositionMismatch => "state families have different token positions"@,
            StateError::LocationMismatch => "state families have different placements"@,
            StateError::PositionRegression => "state token position cannot move backwards"@,
        }
    }

    /// Says a state error in words.
    #[must_use]
    pub fn message(&self) -> (r: String)
        ensures
            r@ == self.text(),
    {
        match self {
            StateError::UnsupportedRequirement => "state requirement is unsupported".to_owned(),
            StateError::UnsupportedLocation => {
                "state location is unsupported by this manager".to_owned()
            },
            StateError::CapacityExceeded { requested_bytes, available_bytes } => {
                let mut text = "state allocation requires ".to_owned();
                text.append(number(*requested_bytes as u64).as_str());
                text.append(" bytes, but only ");
                text.append(number(*available_bytes as u64).as_str());
                text.append(" are available");
                text
            },
            StateError::SizeOverflow => "state size calculation overflowed".to_owned(),
            StateError::InvalidHandle => "state handle is invalid or already released".to_owned(),
            StateError::DuplicateRequirement => {
                "state requirement appears more than once".to_owned()
            },
            StateError::PositionMismatch => {
                "state families have different token positions".to_owned()
            },
            StateError::LocationMismatch => "state families have different placements".to_owned(),
            StateError::PositionRegression => {
                "state token position cannot move backwards".to_owned()
            },
        }
    }
}

impl WeightSpecError {
    /// What a tensor error says.
    pub open spec fn text(self) -> Seq<char> {
        match self {
            WeightSpecError::EmptyName => "weight tensor name must not be empty"@,
            WeightSpecError::EmptyShape => "weight tensor shape must not be empty"@,
            WeightSpecError::ZeroDimension => "weight tensor dimensions must be non-zero"@,
            WeightSpecError::ElementCountOverflow => "weight tensor element count overflowed"@,
        }
    }

    /// Says a tensor error in words.
    #[must_use]
    pub fn message(&self) -> (r: String)
        ensures
            r@ == self.text(),
    {
        match self {
            WeightSpecError::EmptyName => "weight tensor name must not be empty".to_owned(),
            WeightSpecError::EmptyShape => "weight tensor shape must not be empty".to_owned(),
            WeightSpecError::ZeroDimension => {
                "weight tensor dimensions must be non-zero".to_owned()
            },
            WeightSpecError::ElementCountOverflow => {
                "weight tensor element count overflowed".to_owned()
            },
        }
    }
}

impl WeightBindingError {
    /// What a binding error says.
    pub open spec fn text(self) -> Seq<char> {
        match self {
            WeightBindingError::DuplicateTensor(name) => {
                "weight binding contains duplicate tensor "@ + debug_text(name@)
            },
        }
    }

    /// Says a binding error in words.
    #[must_use]
    pub fn message(&self) -> (r: String)
        ensures
            r@ == self.text(),
    {
        match self {
            WeightBindingError::DuplicateTensor(name) => {
                let mut text = "weight binding contains duplicate tensor ".to_owned();
                text.append(quoted(name.as_str()).as_str());
                text
            },
        }
    }
}

impl DataType {
    /// The variant of a data type, as it is written.
    pub open spec fn variant_text(self) -> Seq<char> {
        match self {
            DataType::F16 => "F16"@,
            DataType::BF16 => "BF16"@,
            DataType::F32 => "F32"@,
            DataType::I8 => "I8"@,
            DataType::U8 => "U8"@,
        }
    }

    fn variant_name(self) -> (r: &'static str)
        ensures
            r@ == self.variant_text(),
    {
        match self {
            DataType::F16 => "F16",
            DataType::BF16 => "BF16",
            DataType::F32 => "F32",
            DataType::I8 => "I8",
            DataType::U8 => "U8",
        }
    }
}

impl KvStateSpec {
    /// The specification as a structure literal.
    pub open spec fn shown_text(self) -> Seq<char> {
        "KvStateSpec { layer_count: "@ + decimal(self@.layer_count as nat) + ", kv_heads: "@
            + decimal(self@.kv_heads as nat) + ", head_dim: "@ + decimal(self@.head_dim as nat)
            + ", block_tokens: "@ + decimal(self@.block_tokens as nat) + ", dtype: "@
            + self@.dtype.variant_text() + " }"@
    }

    fn shown(&self) -> (r: String)
        ensures
            r@ == self.shown_text(),
    {
        let mut text = "KvStateSpec { layer_count: ".to_owned();
        text.append(number(self.layer_count() as u64).as_str());
        text.append(", kv_heads: ");
        text.append(number(self.kv_heads() as u64).as_str());
        text.append(", head_dim: ");
        text.append(number(self.head_dim() as u64).as_str());
        text.append(", block_tokens: ");
        text.append(number(self.block_tokens() as u64).as_str());
        text.append(", dtype: ");
        text.append(self.dtype().variant_name());
        text.append(" }");
        text
    }
}

impl RecurrentMatrixShape {
    /// The shape as a structure literal.
    pub open spec fn shown_text(self) -> Seq<char> {
        "RecurrentMatrixShape { matrix_count: "@ + decimal(self@.matrix_count as nat) + ", rows: "@
            + decimal(self@.rows as nat) + ", columns: "@ + decimal(self@.columns as nat) + " }"@
    }

    fn shown(&self) -> (r: String)
        ensures
            r@ == self.shown_text(),
    {
        let mut text = "RecurrentMatrixShape { matrix_count: ".to_owned();
        text.append(number(self.matrix_count() as u64).as_str());
        text.append(", rows: ");
        text.append(number(self.rows() as u64).as_str());
        text.append(", columns: ");
        text.append(number(self.columns() as u64).as_str());
        text.append(" }");
        text
    }
}

impl ConvolutionStateShape {
    /// The shape as a structure literal.
    pub open spec fn shown_text(self) -> Seq<char> {
        "ConvolutionStateShape { channels: "@ + decimal(self@.channels as nat)
            + ", history_tokens: "@ + decimal(self@.history_tokens as nat) + " }"@
    }

    fn shown(&self) -> (r: String)
        ensures
            r@ == self.shown_text(),
    {
        let mut text = "ConvolutionStateShape { channels: ".to_owned();
        text.append(number(self.channels() as u64).as_str());
        text.append(", history_tokens: ");
        text.append(number(self.history_tokens() as u64).as_str());
        text.append(" }");
        text
    }
}

impl RecurrentStateSpec {
    /// The specification as a structure literal.
    pub open spec fn shown_text(self) -> Seq<char> {
        "RecurrentStateSpec { layer_count: "@ + decimal(self@.layer_count as nat) + ", matrix: "@
            + self@.matrix.shown_text() + ", convolution: "@ + self@.convolution.shown_text()
            + ", matrix_dtype: "@ + self@.matrix_dtype.variant_text() + ", convolution_dtype: "@
            + self@.convolution_dtype.variant_text() + " }"@
    }

    fn shown(&self) -> (r: String)
        ensures
            r@ == self.shown_text(),
    {
        let mut text = "RecurrentStateSpec { layer_count: ".to_owned();
        text.append(number(self.layer_count() as u64).as_str());
        text.append(", matrix: ");
        text.append(self.matrix().shown().as_str());
        text.append(", convolution: ");
        text.append(self.convolution().shown().as_str());
        text.append(", matrix_dtype: ");
        text.append(self.matrix_dtype().variant_name());
        text.append(", convolution_dtype: ");
        text.append(self.convolution_dtype().variant_name());
        text.append(" }");
        text
    }
}

impl StateRequirement {
    /// The requirement as a literal.
    pub open spec fn shown_text(self) -> Seq<char> {
        match self {
            StateRequirement::FullAttentionKv(spec) => {
                "FullAttentionKv("@ + spec.shown_text() + ")"@
            },
            StateRequirement::Recurrent(spec) => "Recurrent("@ + spec.shown_text() + ")"@,
        }
    }

    fn shown(&self) -> (r: String)
        ensures
            r@ == self.shown_text(),
    {
        match self {
            StateRequirement::FullAttentionKv(spec) => {
                let mut text = "FullAttentionKv(".to_owned();
                text.append(spec.shown().as_str());
                text.append(")");
                text
            },
            StateRequirement::Recurrent(spec) => {
                let mut text = "Recurrent(".to_owned();
                text.append(spec.shown().as_str());
                text.append(")");
                text
            },
        }
    }
}

impl RuntimeStateError {
    /// Says a failed execution in words.
    #[must_use]
    pub fn message(&self) -> (r: String)
        ensures
            r@ == "runtime execution failed: "@ + self.reason().text(),
    {
        let mut text = "runtime execution failed: ".to_owned();
        text.append(self.error().message().as_str());
        text
    }
}
/// An error of one part, handed on by another, says first where it came from and then what it
/// says itself.
pub proof fn law_handed_on_errors_keep_their_text(
    model: ModelError,
    backend: BackendError,
    state: StateError,
    plan: PlanError,
    slot: RequestSlotError,
)
    ensures
        RuntimeError::Model(model).text() == "model validation failed: "@ + model.text(),
        RuntimeError::Backend(backend).text() == "backend execution failed: "@ + backend.text(),
        RuntimeError::State(state).text() == "state commitment failed: "@ + state.text(),
        RuntimeError::Plan(plan).text() == "execution batch is invalid: "@ + plan.text(),
        BackendError::InvalidPlan(plan).text() == "invalid execution plan: "@ + plan.text(),
        SchedulerError::Slot(slot).text() == "request slot error: "@ + slot.text(),
        ServingRuntimeError::Plan(plan).text() == "serving execution batch is invalid: "@
            + plan.text(),
        ServingRuntimeError::Scheduler(SchedulerError::Slot(slot)).text()
            == "serving scheduler failed: "@ + SchedulerError::Slot(slot).text(),
        ServingRuntimeError::Runtime(RuntimeError::State(state)).text()
            == "serving execution failed: "@ + RuntimeError::State(state).text(),
{
}

/// An error about a request or a submission names it.
pub proof fn law_errors_name_their_identities(request: RequestId, submission: BackendSubmissionId)
    ensures
        SchedulerError::DuplicateRequest(request).text() == "request "@ + decimal(request@ as nat)
            + " is already admitted"@,
        SchedulerError::UnknownRequest(request).text() == "request "@ + decimal(request@ as nat)
            + " is unknown"@,
        SchedulerError::UnknownSubmission(submission).text() == "submission "@ + decimal(
            submission@ as nat,
        ) + " is unknown"@,
        SchedulerError::DuplicateSubmission(submission).text() == "submission "@ + decimal(
            submission@ as nat,
        ) + " is already in flight"@,
        BackendError::UnknownSubmission(submission).text() == "submission "@ + decimal(
            submission@ as nat,
        ) + " is unknown"@,
        RequestSlotError::DuplicateRequest(request).text() == "request "@ + decimal(
            request@ as nat,
        ) + " is already active"@,
        ServingRuntimeError::PromptMissing(request).text() == "prompt tokens for request "@
            + decimal(request@ as nat) + " are unavailable"@,
        ServingRuntimeError::DecodeTokenMissing(request).text()
            == "next decode token for request "@ + decimal(request@ as nat) + " is unavailable"@,
        ServingRuntimeError::SubmissionCollision(submission).text()
            == "backend reused live submission identity "@ + decimal(submission@ as nat),
{
}

/// A state that does not fit names what it needs and what there is.
pub proof fn law_refused_states_name_their_bytes(requested_bytes: u64, available_bytes: u64)
    ensures
        (StateError::CapacityExceeded { requested_bytes, available_bytes }).text()
            == "state allocation requires "@ + decimal(requested_bytes as nat)
            + " bytes, but only "@ + decimal(available_bytes as nat) + " are available"@,
{
}

} // verus!
