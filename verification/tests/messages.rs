//! What errors say.

use ribn::batch::executor::{RequestIds, RuntimeError};
use ribn::bert::config::ConfigError;
use ribn::bert::encoder::EncoderError;
use ribn::bert::request::EncoderConstraint;
use ribn::bert::weights::WeightError;
use ribn::engine::backend::{BackendError, BackendIdError, BackendSubmissionId};
use ribn::engine::execution::PlanError;
use ribn::engine::model::{ModelError, ModelIdError, ModelRegionId};
use ribn::engine::policy::PolicyError;
use ribn::engine::qualification::{ExecutionVariantIdError, QualificationError};
use ribn::engine::readiness::ReadinessError;
use ribn::engine::request::{RequestError, RequestId, SamplingError};
use ribn::engine::residency::ResidencyError;
use ribn::engine::runtime::{RuntimeError as ExecutionError, RuntimeStateError};
use ribn::engine::scheduler::SchedulerError;
use ribn::engine::serving::RequestSlotError;
use ribn::engine::serving_runtime::ServingRuntimeError;
use ribn::engine::single::Single;
use ribn::engine::state::{
    ConvolutionStateShape, KvStateSpec, RecurrentMatrixShape, RecurrentStateSpec, StateError,
    StateRequirement, StateSpecError,
};
use ribn::engine::tensor::DataType;
use ribn::engine::weights::{WeightBindingError, WeightSpecError};
use ribn::foundation::parameter::{ParameterError, ParameterVersion};
use ribn::foundation::plan::{PlanError as PlacementError, StageId};
use ribn::foundation::pool::ReserveError;
use ribn::foundation::topology::TopologyError;

#[test]
fn foundation_errors_read_as_documented() {
    assert_eq!(
        ParameterError::EmptyIdentity("parameter").message(),
        "parameter identity must not be empty"
    );
    assert_eq!(
        ParameterError::MixedParameterVersions.message(),
        "parameter set contains more than one parameter version"
    );
    assert_eq!(
        PlacementError::EmptyStagePlacement(StageId::new(3)).message(),
        "stage 3 has no assigned device"
    );
    assert_eq!(
        PlacementError::UnknownDevice(StageId::new(10)).message(),
        "stage 10 references a device outside the resource topology"
    );
    assert_eq!(
        ReserveError::Exhausted {
            requested: 5,
            available: 2
        }
        .message(),
        "pool has 2 bytes available, 5 requested"
    );
    assert_eq!(
        ReserveError::TooLarge {
            requested: 9,
            capacity: 8
        }
        .message(),
        "pool capacity 8 bytes cannot grant 9 bytes"
    );
    assert_eq!(
        TopologyError::DuplicateDevice.message(),
        "resource topology contains a duplicate device"
    );
}

#[test]
fn batch_errors_pass_on_what_the_executor_says() {
    let requests = vec![RequestIds::new().take().expect("identity")];
    let error: RuntimeError<()> = RuntimeError::MalformedCompletion {
        requests: requests.clone(),
        returned: 4,
    };
    assert_eq!(
        error.message("unused"),
        "batch executor returned 4 results for 1 submitted requests"
    );
    let error: RuntimeError<()> = RuntimeError::Uncertain {
        requests: requests.clone(),
        source: (),
    };
    assert_eq!(
        error.message("busy"),
        "batch executor failed after reaching the device and retains the work: busy"
    );
    let error: RuntimeError<()> = RuntimeError::Executor {
        requests,
        source: (),
    };
    assert_eq!(error.message("busy"), "busy");
    let error: RuntimeError<()> = RuntimeError::ParameterVersionChanged {
        queued: ParameterVersion::new(7),
        current: ParameterVersion::new(8),
    };
    assert_eq!(
        error.message(""),
        "queued request targets parameter version 7, but executor now exposes version 8"
    );
}

#[test]
fn engine_errors_read_as_documented() {
    let request = RequestId::new(12).expect("request");
    let submission = BackendSubmissionId::new(34).expect("submission");
    assert_eq!(BackendIdError.message(), "backend identity must not be empty");
    assert_eq!(ModelIdError.message(), "model identity must not be empty");
    assert_eq!(
        ExecutionVariantIdError.message(),
        "execution variant identity must not be empty"
    );
    assert_eq!(
        BackendError::Unsupported("CUDA backend capabilities").message(),
        "backend does not support CUDA backend capabilities"
    );
    assert_eq!(
        BackendError::ExecutionFailed("lost".to_owned()).message(),
        "execution failed: lost"
    );
    assert_eq!(
        PlanError::IncompatibleVariant.message(),
        "execution variant is qualified as incompatible"
    );
    assert_eq!(
        ModelError::UnknownRegion(ModelRegionId::new(99)).message(),
        "execution plan references unknown region 99"
    );
    assert_eq!(
        PolicyError::SpeculationUnavailable.message(),
        "native MTP is not advertised by the model"
    );
    assert_eq!(
        QualificationError::VariantMismatch.message(),
        "qualification evidence names another execution variant"
    );
    assert_eq!(
        ReadinessError::InvalidTransition.message(),
        "runtime readiness transition is invalid"
    );
    assert_eq!(
        SamplingError::InvalidTopP.message(),
        "top_p must be finite and in the range (0, 1]"
    );
    assert_eq!(
        RequestError::ZeroOutputBudget.message(),
        "max_output_tokens must be greater than zero"
    );
    assert_eq!(
        ResidencyError::DuplicateResource("a\"b".to_owned()).message(),
        "model residency overrides resource \"a\\\"b\" more than once"
    );
    assert_eq!(
        StateError::CapacityExceeded {
            requested_bytes: 32,
            available_bytes: 0
        }
        .message(),
        "state allocation requires 32 bytes, but only 0 are available"
    );
    assert_eq!(
        StateSpecError::ZeroDimension.message(),
        "state dimensions must be greater than zero"
    );
    assert_eq!(
        WeightSpecError::ElementCountOverflow.message(),
        "weight tensor element count overflowed"
    );
    assert_eq!(
        WeightBindingError::DuplicateTensor("t".to_owned()).message(),
        "weight binding contains duplicate tensor \"t\""
    );
    assert_eq!(
        SchedulerError::DuplicateSubmission(submission).message(),
        "submission 34 is already in flight"
    );
    assert_eq!(
        SchedulerError::from(RequestSlotError::DuplicateRequest(request)).message(),
        "request slot error: request 12 is already active"
    );
    assert_eq!(
        ServingRuntimeError::from(SchedulerError::UnknownRequest(request)).message(),
        "serving scheduler failed: request 12 is unknown"
    );
    assert_eq!(
        ServingRuntimeError::Runtime(ExecutionError::from(BackendError::InvalidPlan(
            PlanError::EmptyStages
        )))
        .message(),
        "serving execution failed: backend execution failed: invalid execution plan: execution plan must contain at least one stage"
    );
    assert_eq!(
        RuntimeStateError::new(ExecutionError::from(StateError::InvalidHandle), Vec::new())
            .message(),
        "runtime execution failed: state commitment failed: state handle is invalid or already released"
    );
}

#[test]
fn undeclared_states_are_shown_whole() {
    let kv = StateRequirement::FullAttentionKv(
        KvStateSpec::new(16, 4, 256, 8, DataType::BF16).expect("spec"),
    );
    let recurrent = StateRequirement::Recurrent(
        RecurrentStateSpec::new(
            48,
            RecurrentMatrixShape::new(2, 3, 4).expect("matrix"),
            ConvolutionStateShape::new(10_240, 3).expect("convolution"),
            DataType::F16,
            DataType::F32,
        )
        .expect("spec"),
    );
    for requirement in [kv, recurrent] {
        assert_eq!(
            ModelError::UndeclaredState(requirement).message(),
            format!("execution plan requires undeclared state: {requirement:?}")
        );
    }
}

#[test]
fn encoder_errors_read_as_documented() {
    assert_eq!(
        EncoderConstraint::SequenceTooLong {
            sequence: 17,
            max_position_embeddings: 16
        }
        .message(),
        "sequence length 17 exceeds the model's 16 position embeddings"
    );
    assert_eq!(
        EncoderConstraint::LengthMismatch {
            tokens: 1,
            token_types: 2,
            mask: 3
        }
        .message(),
        "token, token-type and mask lengths must agree, found 1, 2 and 3"
    );
    assert_eq!(
        ConfigError::UnsupportedModelType("x\n".to_owned()).message(""),
        "this encoder executes model_type=bert checkpoints, found \"x\\n\""
    );
    assert_eq!(
        ConfigError::UnsupportedActivation("relu".to_owned()).message(""),
        "this encoder executes hidden_act=gelu, found \"relu\"; substituting another activation would change the model's arithmetic"
    );
    assert_eq!(
        ConfigError::InvalidEpsilon(Single::from_bits(0)).message("0"),
        "layer_norm_eps must be finite and positive, found 0"
    );
    for dimensions in [vec![], vec![1], vec![1, 20, 300]] {
        let error = WeightError::Shape {
            parameter: "p".to_owned(),
            expected: vec![2, 3],
            found: dimensions.clone(),
        };
        assert_eq!(
            error.message(),
            format!("parameter p has shape {dimensions:?}, expected [2, 3]")
        );
    }
    assert_eq!(
        EncoderError::from(WeightError::Length {
            parameter: "p".to_owned(),
            expected: 6,
            found: 5
        })
        .message(""),
        "encoder parameters: parameter p carries 5 values, expected 6"
    );
    assert_eq!(
        EncoderError::from(ConfigError::NonPositive).message(""),
        "encoder configuration: every BERT geometry field must be positive"
    );
    assert_eq!(
        EncoderError::from(EncoderConstraint::EmptySequence).message(""),
        "encoder request: sequence length must be positive"
    );
}
