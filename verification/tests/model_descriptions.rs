use ribn::engine::backend::BackendId;
use ribn::engine::device::DeviceId;
use ribn::engine::execution::{
    ExecutionPhase, ExecutionPlan, ExecutionSegment, ExecutionStage, PlanError,
};
use ribn::engine::model::{
    ModelCapabilities, ModelDescription, ModelError, ModelId, ModelIdError, ModelProvider,
    ModelRegion, ModelRegionId, ModelRegionKind, MtpCapability, WeightDescription,
};
use ribn::engine::policy::{
    PolicyError, PolicySnapshot, PolicyVersion, SpeculationPolicy, StateTierPreference,
};
use ribn::engine::qualification::{
    ExecutionVariant, ExecutionVariantId, QualificationStatus,
};
use ribn::engine::request::{
    PromptFormat, PromptPolicy, RequestError, RequestId, RequestSemantics, RequestSpec,
    SamplingParams, SpecialTokenPolicy, ThinkingMode,
};
use ribn::engine::residency::{
    ModelResidencyPlan, ModelResourceId, ResidencyError, ResidencyLocation, ResidencyOverride,
};
use ribn::engine::state::{
    ConvolutionStateShape, InferenceStateSet, KvState, KvStateSpec, RecurrentMatrixShape,
    RecurrentState, RecurrentStateSpec, StateError, StateHandle, StateId, StateLocation,
    StateRequirement, StateSpecError,
};
use ribn::engine::state_manager::{LogicalStateManager, StateManager};
use ribn::engine::tensor::{DataType, Quantization, WeightFormat};
use ribn::engine::weights::{
    WeightBinding, WeightBindingError, WeightSpecError, WeightTensorSpec,
};

struct StaticProvider {
    description: ModelDescription,
}

impl ModelProvider for StaticProvider {
    fn description(&self) -> &ModelDescription {
        &self.description
    }
}

fn qwen_description() -> ModelDescription {
    let model = ModelId::new("Qwen/Qwen3.8-27B").expect("valid model identity");
    let kv = KvStateSpec::new(16, 4, 256, 16, DataType::F16).expect("valid KV spec");
    let matrix = RecurrentMatrixShape::new(48, 128, 128).expect("valid matrix shape");
    let convolution = ConvolutionStateShape::new(10_240, 3).expect("valid convolution state shape");
    let recurrent = RecurrentStateSpec::new(48, matrix, convolution, DataType::F16, DataType::F32)
        .expect("valid recurrent spec");
    let mtp = MtpCapability::new(1, 3);
    ModelDescription::new(
        model,
        "qwen3.8-hybrid",
        vec![
            ModelRegion::new(ModelRegionId::new(0), ModelRegionKind::RecurrentAttention),
            ModelRegion::new(ModelRegionId::new(1), ModelRegionKind::FullAttention),
            ModelRegion::new(ModelRegionId::new(2), ModelRegionKind::FeedForward),
        ],
        vec![
            StateRequirement::Recurrent(recurrent),
            StateRequirement::FullAttentionKv(kv),
        ],
        ModelCapabilities::new(mtp, true),
        WeightDescription::new(WeightFormat::Gguf, Quantization::GgufQ4Km),
    )
    .expect("valid model description")
}

fn plan_for(description: &ModelDescription, region: u16) -> ExecutionPlan {
    ExecutionPlan::new(
        description.id().clone(),
        BackendId::new("cuda").expect("valid backend identity"),
        DeviceId::new(0),
        PolicyVersion::new(1).expect("valid policy version"),
        vec![ExecutionStage::new(
            ModelRegionId::new(region),
            ExecutionPhase::Decode,
        )],
        description.state_requirements().to_vec(),
        WeightBinding::empty(description.id().clone(), DeviceId::new(0)),
    )
    .expect("valid plan shape")
}

#[test]
fn hybrid_description_and_plan_keep_state_families_distinct() {
    let description = qwen_description();
    let plan = plan_for(&description, 0);

    assert!(plan.requires_kv_state());
    assert!(plan.requires_recurrent_state());
    assert_eq!(plan.variant().status(), QualificationStatus::Experimental);
    assert!(plan.variant().evidence().is_none());
    assert_eq!(
        plan.residency().default_location(),
        ResidencyLocation::Device(DeviceId::new(0))
    );
    assert_eq!(
        description
            .capabilities()
            .mtp()
            .expect("MTP")
            .draft_layers(),
        1
    );
    assert!(description.capabilities().has_vision_encoder());

    let segment = ExecutionSegment::new(
        RequestId::new(1).expect("valid request ID"),
        ExecutionPhase::Decode,
        1,
        1,
        32,
        description.state_requirements().to_vec(),
    )
    .expect("valid segment");
    assert!(plan.validate_segment(&segment).is_ok());
    let wrong_phase = ExecutionSegment::new(
        segment.request(),
        ExecutionPhase::Encoder,
        1,
        1,
        32,
        Vec::new(),
    )
    .expect("valid segment");
    assert_eq!(
        plan.validate_segment(&wrong_phase),
        Err(PlanError::SegmentPhaseMismatch)
    );
}

#[test]
fn provider_rejects_unknown_regions_before_execution() {
    let description = qwen_description();
    let plan = plan_for(&description, 99);
    let provider = StaticProvider { description };
    assert_eq!(
        provider.validate_plan(&plan),
        Err(ModelError::UnknownRegion(ModelRegionId::new(99)))
    );
}

#[test]
fn provider_accepts_its_own_plans_and_rejects_others() {
    let description = qwen_description();
    let accepted = plan_for(&description, 2);
    let other = ModelId::new("other").expect("model");
    let foreign = ExecutionPlan::new(
        other.clone(),
        BackendId::new("cuda").expect("backend"),
        DeviceId::new(0),
        PolicyVersion::new(1).expect("version"),
        vec![ExecutionStage::new(
            ModelRegionId::new(0),
            ExecutionPhase::Decode,
        )],
        Vec::new(),
        WeightBinding::empty(other, DeviceId::new(0)),
    )
    .expect("plan");
    let undeclared = StateRequirement::FullAttentionKv(
        KvStateSpec::new(1, 1, 1, 1, DataType::F16).expect("spec"),
    );
    let stateful = ExecutionPlan::new(
        description.id().clone(),
        BackendId::new("cuda").expect("backend"),
        DeviceId::new(0),
        PolicyVersion::new(1).expect("version"),
        vec![ExecutionStage::new(
            ModelRegionId::new(0),
            ExecutionPhase::Decode,
        )],
        vec![undeclared],
        WeightBinding::empty(description.id().clone(), DeviceId::new(0)),
    )
    .expect("plan");
    let provider = StaticProvider { description };
    assert_eq!(provider.validate_plan(&accepted), Ok(()));
    assert_eq!(
        provider.validate_plan(&foreign),
        Err(ModelError::PlanModelMismatch)
    );
    assert_eq!(
        provider.validate_plan(&stateful),
        Err(ModelError::UndeclaredState(undeclared))
    );
}

#[test]
fn descriptions_require_an_architecture_and_a_region() {
    let describe = |architecture: &str, regions: Vec<ModelRegion>| {
        ModelDescription::new(
            ModelId::new("m").expect("model"),
            architecture,
            regions,
            Vec::new(),
            ModelCapabilities::new(None, false),
            WeightDescription::new(WeightFormat::Gguf, Quantization::GgufQ4Km),
        )
        .map(|description| description.architecture().to_owned())
    };
    let region = ModelRegion::new(ModelRegionId::new(7), ModelRegionKind::Encoder);
    assert_eq!(
        describe(" \t", vec![region]),
        Err(ModelError::InvalidDescription(
            "architecture must not be empty"
        ))
    );
    assert_eq!(
        describe("bert", Vec::new()),
        Err(ModelError::InvalidDescription(
            "model description must contain at least one region"
        ))
    );
    assert_eq!(describe("bert", vec![region]), Ok("bert".to_owned()));
    assert_eq!(ModelId::new(" ").map(|id| id.as_str().len()), Err(ModelIdError));
    assert!(MtpCapability::new(0, 1).is_none());
    assert!(MtpCapability::new(1, 0).is_none());
}

#[test]
fn typed_state_handles_reject_cross_family_construction() {
    let spec = KvStateSpec::new(16, 4, 256, 16, DataType::F16).expect("valid KV spec");
    let requirement = StateRequirement::FullAttentionKv(spec);
    let handle = StateHandle::new(
        StateId::new(1).expect("valid state ID"),
        requirement,
        StateLocation::Device(DeviceId::new(0)),
        32,
    );
    assert!(KvState::new(handle, spec).is_some());

    let matrix = RecurrentMatrixShape::new(48, 128, 128).expect("valid matrix shape");
    let convolution = ConvolutionStateShape::new(10_240, 3).expect("valid convolution state shape");
    let recurrent = RecurrentStateSpec::new(48, matrix, convolution, DataType::F16, DataType::F32)
        .expect("valid recurrent spec");
    let wrong_family_handle = StateHandle::new(
        StateId::new(2).expect("valid state ID"),
        requirement,
        StateLocation::Device(DeviceId::new(0)),
        32,
    );
    assert!(RecurrentState::new(wrong_family_handle, recurrent).is_none());

    let recurrent_handle = StateHandle::new(
        StateId::new(3).expect("valid state ID"),
        StateRequirement::Recurrent(recurrent),
        StateLocation::Device(DeviceId::new(0)),
        31,
    );
    let recurrent_state =
        RecurrentState::new(recurrent_handle, recurrent).expect("valid recurrent state");
    let kv_handle = StateHandle::new(
        StateId::new(4).expect("valid state ID"),
        requirement,
        StateLocation::Device(DeviceId::new(0)),
        32,
    );
    let kv_state = KvState::new(kv_handle, spec).expect("valid KV state");
    assert_eq!(
        InferenceStateSet::try_new(Some(kv_state), Some(recurrent_state)),
        Err(StateError::PositionMismatch)
    );
}

#[test]
fn recurrent_state_bytes_count_matrices_and_history() {
    let matrix = RecurrentMatrixShape::new(2, 3, 4).expect("matrix");
    let convolution = ConvolutionStateShape::new(5, 6).expect("convolution");
    let spec = RecurrentStateSpec::new(7, matrix, convolution, DataType::F16, DataType::F32)
        .expect("spec");
    assert_eq!(spec.byte_size(), Some(2 * 3 * 4 * 7 * 2 + 5 * 6 * 7 * 4));
    assert_eq!(
        RecurrentStateSpec::new(0, matrix, convolution, DataType::F16, DataType::F32),
        Err(StateSpecError::ZeroDimension)
    );
    assert_eq!(
        KvStateSpec::new(1, 0, 1, 1, DataType::F16),
        Err(StateSpecError::ZeroDimension)
    );
}

#[test]
fn request_semantics_do_not_contain_performance_policy() {
    let sampling = SamplingParams::greedy(Some(42));
    let semantics =
        RequestSemantics::new(128, sampling, ThinkingMode::Off).expect("valid request semantics");
    let request = RequestSpec::new(
        RequestId::new(1).expect("valid request ID"),
        ModelId::new("Qwen/Qwen3.8-27B").expect("valid model identity"),
        semantics,
    );

    assert_eq!(request.semantics().sampling().seed(), Some(42));
    assert_eq!(request.semantics().thinking(), ThinkingMode::Off);
    assert_eq!(request.semantics().max_output_tokens(), 128);
    assert_eq!(
        request.semantics().prompt_policy(),
        PromptPolicy::plain_text()
    );
    let chat_request = request.clone();
    let chat_semantics =
        chat_request
            .semantics()
            .clone()
            .with_prompt_policy(PromptPolicy::new(
                PromptFormat::EmbeddedChatTemplate,
                SpecialTokenPolicy::AddBosAndEos,
            ));
    assert_eq!(
        chat_semantics.prompt_policy().format(),
        PromptFormat::EmbeddedChatTemplate
    );
    assert_eq!(
        chat_semantics.prompt_policy().special_tokens(),
        SpecialTokenPolicy::AddBosAndEos
    );
    assert!(matches!(
        RequestSemantics::new(0, sampling, ThinkingMode::Off),
        Err(RequestError::ZeroOutputBudget)
    ));
}

#[test]
fn policy_snapshot_is_versioned_and_validated() {
    let snapshot = PolicySnapshot::new(
        PolicyVersion::new(7).expect("valid policy version"),
        8,
        2048,
        StateTierPreference::Automatic,
        SpeculationPolicy::native_mtp(3).expect("valid MTP budget"),
    )
    .expect("valid policy snapshot");

    assert_eq!(snapshot.version().get(), 7);
    assert_eq!(snapshot.max_batch_tokens(), 2048);
    assert_eq!(
        snapshot.speculation(),
        SpeculationPolicy::NativeMtp {
            max_draft_tokens: 3
        }
    );
    assert!(snapshot
        .validate_for(qwen_description().capabilities())
        .is_ok());
    assert_eq!(
        snapshot.validate_for(ModelCapabilities::new(None, false)),
        Err(PolicyError::SpeculationUnavailable)
    );
    assert_eq!(
        snapshot.validate_for(ModelCapabilities::new(MtpCapability::new(1, 2), false)),
        Err(PolicyError::DraftBudgetExceedsCapability)
    );
    assert!(PolicySnapshot::new(
        PolicyVersion::new(8).expect("valid policy version"),
        0,
        2048,
        StateTierPreference::Device,
        SpeculationPolicy::Disabled,
    )
    .is_err());
    assert_eq!(
        PolicySnapshot::new(
            PolicyVersion::new(8).expect("valid policy version"),
            1,
            1,
            StateTierPreference::Host,
            SpeculationPolicy::NativeMtp {
                max_draft_tokens: 0
            },
        ),
        Err(PolicyError::ZeroDraftBudget)
    );
}

#[test]
fn logical_state_manager_accounts_for_typed_allocations() {
    let device = DeviceId::new(0);
    let spec = KvStateSpec::new(1, 1, 2, 4, DataType::F16).expect("KV spec");
    assert_eq!(spec.byte_size(), Some(32));
    let mut manager = LogicalStateManager::new(device, 32, 0);
    let state = manager
        .allocate_kv(spec, StateLocation::Device(device))
        .expect("first allocation");
    assert_eq!(manager.used_bytes(StateLocation::Device(device)), Some(32));
    assert!(matches!(
        manager.allocate_kv(spec, StateLocation::Device(device)),
        Err(StateError::CapacityExceeded { .. })
    ));

    let state_set = InferenceStateSet::try_new(Some(state), None).expect("state set");
    let mut committed = state_set;
    manager.commit(&mut committed, 4).expect("commit");
    assert_eq!(committed.token_position(), Some(4));
    manager
        .release(committed.kv().expect("KV state").handle().clone())
        .expect("release");
    assert_eq!(manager.used_bytes(StateLocation::Device(device)), Some(0));
}

#[test]
fn state_managers_refuse_what_they_do_not_own() {
    let device = DeviceId::new(0);
    let spec = KvStateSpec::new(1, 1, 2, 4, DataType::F16).expect("KV spec");
    let mut manager = LogicalStateManager::new(device, 64, 0);
    assert_eq!(
        manager.allocate_kv(spec, StateLocation::Device(DeviceId::new(1))),
        Err(StateError::UnsupportedLocation)
    );
    assert_eq!(
        manager.allocate_kv(spec, StateLocation::Host),
        Err(StateError::CapacityExceeded {
            requested_bytes: 32,
            available_bytes: 0
        })
    );
    let kv = manager
        .allocate_kv(spec, StateLocation::Device(device))
        .expect("allocation");
    let mut set = InferenceStateSet::try_new(Some(kv), None).expect("set");
    let stale = set.clone();
    assert_eq!(manager.validate(&set), Ok(()));
    manager.commit(&mut set, 3).expect("commit");
    assert_eq!(manager.validate(&stale), Err(StateError::InvalidHandle));
    assert_eq!(
        manager.commit(&mut set, 2),
        Err(StateError::PositionRegression)
    );
    assert_eq!(set.token_position(), Some(3));
    manager.release_set(&set).expect("release");
    assert_eq!(manager.release_set(&set), Err(StateError::InvalidHandle));
    assert_eq!(manager.used_bytes(StateLocation::Device(device)), Some(0));
}

#[test]
fn batch_commits_move_all_states_or_none() {
    let device = DeviceId::new(0);
    let spec = KvStateSpec::new(1, 1, 2, 4, DataType::F16).expect("KV spec");
    let mut manager = LogicalStateManager::new(device, 1024, 0);
    let mut sets = Vec::new();
    for _ in 0..2 {
        let kv = manager
            .allocate_kv(spec, StateLocation::Device(device))
            .expect("allocation");
        sets.push(InferenceStateSet::try_new(Some(kv), None).expect("set"));
    }
    manager.commit_batch(&mut sets, &[5, 7]).expect("commit");
    assert_eq!(sets[0].token_position(), Some(5));
    assert_eq!(sets[1].token_position(), Some(7));
    assert_eq!(
        manager.commit_batch(&mut sets, &[9, 6]),
        Err(StateError::PositionRegression)
    );
    assert_eq!(sets[0].token_position(), Some(5));
    assert_eq!(manager.validate(&sets[0]), Ok(()));
    assert_eq!(
        manager.commit_batch(&mut sets, &[9]),
        Err(StateError::PositionMismatch)
    );
}

#[test]
fn residency_overrides_decide_where_resources_live() {
    let model = ModelId::new("m").expect("model");
    let resource = |name: &str| ModelResourceId::new(name).expect("resource");
    let plan = ModelResidencyPlan::new(
        model.clone(),
        ResidencyLocation::Host,
        vec![
            ResidencyOverride::new(resource("experts"), ResidencyLocation::Mapped, true),
            ResidencyOverride::new(
                resource("embeddings"),
                ResidencyLocation::Device(DeviceId::new(3)),
                false,
            ),
        ],
    )
    .expect("plan");
    assert_eq!(
        plan.location_for(&resource("experts")),
        ResidencyLocation::Mapped
    );
    assert_eq!(
        plan.location_for(&resource("embeddings")),
        ResidencyLocation::Device(DeviceId::new(3))
    );
    assert_eq!(plan.location_for(&resource("head")), ResidencyLocation::Host);
    assert!(plan.overrides()[0].prefetchable());
    assert!(matches!(
        ModelResidencyPlan::new(
            model,
            ResidencyLocation::Host,
            vec![
                ResidencyOverride::new(resource("experts"), ResidencyLocation::Mapped, true),
                ResidencyOverride::new(resource("experts"), ResidencyLocation::Host, true),
            ],
        ),
        Err(ResidencyError::DuplicateResource(name)) if name == "experts"
    ));
    assert!(matches!(
        ModelResourceId::new("  "),
        Err(ResidencyError::EmptyResource)
    ));
}

#[test]
fn weight_tensors_are_named_shaped_and_bound_once() {
    let tensor =
        WeightTensorSpec::new("blk.0.attn", vec![3, 4, 5], DataType::F16).expect("tensor");
    assert_eq!(tensor.element_count(), 60);
    assert_eq!(tensor.byte_size(), Some(120));
    assert!(matches!(
        WeightTensorSpec::new(" ", vec![1], DataType::F16),
        Err(WeightSpecError::EmptyName)
    ));
    assert!(matches!(
        WeightTensorSpec::new("a", Vec::new(), DataType::F16),
        Err(WeightSpecError::EmptyShape)
    ));
    assert!(matches!(
        WeightTensorSpec::new("a", vec![2, 0], DataType::F16),
        Err(WeightSpecError::ZeroDimension)
    ));
    assert!(matches!(
        WeightTensorSpec::new("a", vec![u64::MAX, 2], DataType::F16),
        Err(WeightSpecError::ElementCountOverflow)
    ));
    let model = ModelId::new("m").expect("model");
    let binding =
        WeightBinding::new(model.clone(), DeviceId::new(0), vec![tensor.clone()]).expect("binding");
    assert_eq!(
        binding.tensor("blk.0.attn").map(|found| found.element_count()),
        Some(60)
    );
    assert!(binding.tensor("blk.1.attn").is_none());
    assert!(matches!(
        WeightBinding::new(model, DeviceId::new(0), vec![tensor.clone(), tensor]),
        Err(WeightBindingError::DuplicateTensor(name)) if name == "blk.0.attn"
    ));
}

#[test]
fn plans_reject_mismatched_parts() {
    let description = qwen_description();
    let model = description.id().clone();
    let build = |stages: Vec<ExecutionStage>, device: DeviceId| {
        ExecutionPlan::new(
            model.clone(),
            BackendId::new("cuda").expect("backend"),
            DeviceId::new(0),
            PolicyVersion::new(1).expect("version"),
            stages,
            Vec::new(),
            WeightBinding::empty(model.clone(), device),
        )
        .map(|_| ())
    };
    let stage = ExecutionStage::new(ModelRegionId::new(0), ExecutionPhase::Decode);
    assert_eq!(
        build(Vec::new(), DeviceId::new(0)),
        Err(PlanError::EmptyStages)
    );
    assert_eq!(
        build(vec![stage], DeviceId::new(1)),
        Err(PlanError::WeightBindingMismatch)
    );
    let plan = plan_for(&description, 0);
    let elsewhere =
        ModelResidencyPlan::single_device(ModelId::new("other").expect("model"), DeviceId::new(0));
    assert!(matches!(
        plan.clone().with_residency(elsewhere),
        Err(PlanError::ResidencyModelMismatch)
    ));
    let incompatible = ExecutionVariant::new(
        ExecutionVariantId::new("broken").expect("variant"),
        QualificationStatus::Incompatible,
    );
    assert!(matches!(
        plan.with_variant(incompatible),
        Err(PlanError::IncompatibleVariant)
    ));
}
