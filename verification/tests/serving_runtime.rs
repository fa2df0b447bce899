use ribn::engine::backend::{
    BackendCapabilities, BackendError, BackendFeatures, BackendId, BackendKind,
    BackendSubmissionId, ComputeBackend,
};
use ribn::engine::device::DeviceId;
use ribn::engine::execution::{
    ExecutionBatch, ExecutionBatchEvent, ExecutionEvent, ExecutionMetrics, ExecutionPhase,
    ExecutionPlan, ExecutionSegment, ExecutionStage, ExecutionTokenInput,
};
use ribn::engine::model::{
    ModelCapabilities, ModelDescription, ModelError, ModelId, ModelProvider, ModelRegion,
    ModelRegionId, ModelRegionKind, WeightDescription,
};
use ribn::engine::policy::{
    PolicySnapshot, PolicyVersion, SpeculationPolicy, StateTierPreference,
};
use ribn::engine::request::{
    RequestId, RequestSemantics, RequestSpec, SamplingParams, ThinkingMode,
};
use ribn::engine::runtime::{ExecutionRuntime, RuntimeError};
use ribn::engine::scheduler::{SchedulerConfig, SchedulerError, ServingScheduler};
use ribn::engine::serving::RequestLifecycle;
use ribn::engine::serving_runtime::{GeneratedToken, ServingRuntime, ServingRuntimeError};
use ribn::engine::state::{
    InferenceStateSet, KvState, KvStateSpec, RecurrentState, RecurrentStateSpec, StateError,
    StateHandle, StateLocation,
};
use ribn::engine::state_manager::{LogicalStateManager, StateManager};
use ribn::engine::tensor::{DataType, Quantization, WeightFormat};
use ribn::engine::weights::WeightBinding;
use std::collections::HashMap;

struct TestProvider {
    description: ModelDescription,
}

impl ModelProvider for TestProvider {
    fn description(&self) -> &ModelDescription {
        &self.description
    }
}

struct DelayedBackend {
    capabilities: BackendCapabilities,
    next_submission: u64,
    pending: HashMap<BackendSubmissionId, (u8, ExecutionBatchEvent)>,
    submitted_inputs: Vec<Vec<ExecutionTokenInput>>,
    fail_submit: bool,
    fail_release: bool,
}

impl DelayedBackend {
    fn new(capabilities: BackendCapabilities, fail_submit: bool) -> Self {
        Self {
            capabilities,
            next_submission: 1,
            pending: HashMap::new(),
            submitted_inputs: Vec::new(),
            fail_submit,
            fail_release: false,
        }
    }
}

impl ComputeBackend for DelayedBackend {
    fn release_inference_state(&mut self, _state: &InferenceStateSet) -> Result<(), BackendError> {
        if self.fail_release {
            return Err(BackendError::ExecutionFailed(
                "injected physical release failure".into(),
            ));
        }
        Ok(())
    }

    fn capabilities(&self) -> &BackendCapabilities {
        &self.capabilities
    }

    fn submit(
        &mut self,
        plan: &ExecutionPlan,
        batch: &ExecutionBatch,
        states: &mut [InferenceStateSet],
    ) -> Result<BackendSubmissionId, BackendError> {
        self.validate_execution(plan, batch, states)?;
        if self.fail_submit {
            return Err(BackendError::ExecutionFailed(
                "test submit failure".to_owned(),
            ));
        }
        let inputs = batch
            .segments()
            .iter()
            .map(|segment| {
                segment.token_input().cloned().ok_or_else(|| {
                    BackendError::ExecutionFailed(
                        "test serving segment lacked token input".to_owned(),
                    )
                })
            })
            .collect::<Result<Vec<_>, _>>()?;
        self.submitted_inputs.push(inputs);
        let id = BackendSubmissionId::new(self.next_submission)
            .ok_or_else(|| BackendError::ExecutionFailed("submission overflow".to_owned()))?;
        self.next_submission = self
            .next_submission
            .checked_add(1)
            .ok_or_else(|| BackendError::ExecutionFailed("submission overflow".to_owned()))?;
        let events = batch
            .segments()
            .iter()
            .map(|segment| {
                let event = ExecutionEvent::new(
                    segment.request(),
                    plan.policy_version(),
                    segment.phase(),
                    segment.token_count(),
                    ExecutionMetrics::new(10, 0, 0),
                )
                .expect("non-zero segment");
                if segment.requests_sampling() {
                    event.with_output_token(7)
                } else {
                    event
                }
            })
            .collect();
        let event = ExecutionBatchEvent::new(events).expect("batch event");
        self.pending.insert(id, (1, event));
        Ok(id)
    }

    fn poll(
        &mut self,
        submission: BackendSubmissionId,
    ) -> Result<Option<ExecutionBatchEvent>, BackendError> {
        let Some((remaining, _)) = self.pending.get_mut(&submission) else {
            return Err(BackendError::UnknownSubmission(submission));
        };
        if *remaining > 0 {
            *remaining -= 1;
            return Ok(None);
        }
        let (_, event) = self
            .pending
            .remove(&submission)
            .ok_or(BackendError::UnknownSubmission(submission))?;
        Ok(Some(event))
    }
}

fn fixture(fail_submit: bool) -> ServingRuntime<TestProvider, DelayedBackend, FaultManager> {
    let device = DeviceId::new(0);
    let model = ModelId::new("test/model").expect("model ID");
    let backend_id = BackendId::new("test-backend").expect("backend ID");
    let version = PolicyVersion::new(1).expect("policy version");
    let description = ModelDescription::new(
        model.clone(),
        "test",
        vec![ModelRegion::new(
            ModelRegionId::new(0),
            ModelRegionKind::FullAttention,
        )],
        Vec::new(),
        ModelCapabilities::new(None, false),
        WeightDescription::new(WeightFormat::Gguf, Quantization::Unquantized),
    )
    .expect("description");
    let plan = ExecutionPlan::new(
        model,
        backend_id.clone(),
        device,
        version,
        vec![
            ExecutionStage::new(ModelRegionId::new(0), ExecutionPhase::Prefill),
            ExecutionStage::new(ModelRegionId::new(0), ExecutionPhase::Decode),
        ],
        Vec::new(),
        WeightBinding::empty(ModelId::new("test/model").expect("model ID"), device),
    )
    .expect("plan");
    let policy = PolicySnapshot::new(
        version,
        2,
        4,
        StateTierPreference::Automatic,
        SpeculationPolicy::Disabled,
    )
    .expect("policy");
    let scheduler = ServingScheduler::new(
        policy,
        SchedulerConfig::new(2, 2, 3).expect("scheduler config"),
    );
    let capabilities = BackendCapabilities::new(
        backend_id,
        device,
        BackendKind::Cpu,
        1024,
        BackendFeatures::new(Vec::new(), Vec::new(), false, true),
    );
    let runtime = ExecutionRuntime::new(
        TestProvider { description },
        DelayedBackend::new(capabilities, fail_submit),
        FaultManager {
            inner: LogicalStateManager::new(device, 1024, 0),
            fail_commit: false,
            fail_release: false,
        },
    );
    ServingRuntime::new(scheduler, runtime, plan).expect("serving runtime")
}

fn request(id: u64) -> RequestSpec {
    RequestSpec::new(
        RequestId::new(id).expect("request ID"),
        ModelId::new("test/model").expect("model ID"),
        RequestSemantics::new(2, SamplingParams::greedy(Some(id)), ThinkingMode::Off)
            .expect("semantics"),
    )
}

fn state() -> InferenceStateSet {
    InferenceStateSet::new(Vec::new()).expect("state")
}

fn prompt(tokens: &[u32]) -> Vec<u32> {
    tokens.to_vec()
}

#[test]
fn one_runtime_submission_owns_multiple_slots_until_completion() {
    let mut serving = fixture(false);
    let first = RequestId::new(1).expect("request ID");
    let second = RequestId::new(2).expect("request ID");
    serving
        .admit_request(request(1), state(), prompt(&[11]))
        .expect("first");
    serving
        .admit_request(request(2), state(), prompt(&[12]))
        .expect("second");

    let submission = serving
        .submit_ready_batch()
        .expect("submit")
        .expect("submission");
    assert_eq!(serving.submission_count(), 1);
    assert_eq!(serving.scheduler().counts().in_flight(), 2);
    for request in [first, second] {
        let slot = serving.scheduler().slot_for_request(request).expect("slot");
        assert!(
            serving
                .scheduler()
                .slots()
                .get(slot)
                .expect("request")
                .state()
                .is_none()
        );
    }

    assert_eq!(serving.poll_completions().expect("pending poll"), 0);
    assert_eq!(serving.submission_count(), 1);
    assert_eq!(serving.poll_completions().expect("completion poll"), 1);
    assert_eq!(serving.submission_count(), 0);
    assert_eq!(serving.scheduler().counts().runnable(), 2);
    assert_eq!(serving.scheduler().counts().in_flight(), 0);
    assert!(submission.get() > 0);
}

#[test]
fn sampled_prefill_token_becomes_the_next_decode_input() {
    let mut serving = fixture(false);
    serving
        .admit_request(request(1), state(), prompt(&[11, 12]))
        .expect("request");

    serving.submit_ready_batch().expect("prefill submit");
    assert_eq!(
        serving.runtime().backend().submitted_inputs[0][0].prompt_slice(),
        Some(&[11, 12][..])
    );
    assert_eq!(serving.poll_completions().expect("pending poll"), 0);
    assert_eq!(serving.poll_completions().expect("prefill completion"), 1);
    assert_eq!(serving.generated_token_count(), 1);
    assert_eq!(
        serving.pop_generated_token(),
        Some(GeneratedToken::new(
            RequestId::new(1).expect("request ID"),
            7
        ))
    );
    assert_eq!(serving.generated_token_count(), 0);

    serving.submit_ready_batch().expect("decode submit");
    assert_eq!(
        serving.runtime().backend().submitted_inputs[1][0].decode_token(),
        Some(7)
    );
}

#[test]
fn cancelling_one_request_does_not_cancel_peer_in_same_submission() {
    let mut serving = fixture(false);
    let first = RequestId::new(1).expect("request ID");
    serving
        .admit_request(request(1), state(), prompt(&[11]))
        .expect("first");
    serving
        .admit_request(request(2), state(), prompt(&[12]))
        .expect("second");
    serving.submit_ready_batch().expect("submit");
    serving.cancel(first).expect("cancel");
    serving.poll_completions().expect("pending poll");
    serving.poll_completions().expect("completion poll");
    assert_eq!(serving.scheduler().counts().terminal(), 1);
    assert_eq!(serving.scheduler().counts().runnable(), 1);
    assert_eq!(serving.generated_token_count(), 1);
    assert_eq!(
        serving.pop_generated_token(),
        Some(GeneratedToken::new(
            RequestId::new(2).expect("request ID"),
            7
        ))
    );
    assert_eq!(serving.generated_token_count(), 0);
}

#[test]
fn terminal_reclaim_releases_logical_state_capacity() {
    let mut serving = fixture(false);
    let device = DeviceId::new(0);
    let spec =
        KvStateSpec::new(1, 1, 2, 4, DataType::F16).expect("KV spec");
    let kv = serving
        .runtime_mut()
        .state_manager_mut()
        .allocate_kv(spec, StateLocation::Device(device))
        .expect("KV allocation");
    let state = InferenceStateSet::try_new(Some(kv), None).expect("state set");
    assert!(
        serving
            .runtime()
            .state_manager()
            .used_bytes(StateLocation::Device(device))
            .is_some_and(|bytes| bytes > 0)
    );

    let request_id = RequestId::new(1).expect("request ID");
    serving
        .admit_request(request(1), state, prompt(&[11]))
        .expect("admit");
    serving.cancel(request_id).expect("cancel");
    let reclaimed = serving
        .reclaim_next()
        .expect("reclaim")
        .expect("terminal request");

    assert!(reclaimed.state().is_none());
    assert_eq!(
        serving
            .runtime()
            .state_manager()
            .used_bytes(StateLocation::Device(device)),
        Some(0)
    );
}

#[test]
fn failed_backend_submit_restores_states_before_terminalizing() {
    let mut serving = fixture(true);
    serving
        .admit_request(request(1), state(), prompt(&[11]))
        .expect("first");
    serving
        .admit_request(request(2), state(), prompt(&[12]))
        .expect("second");
    assert!(matches!(
        serving.submit_ready_batch(),
        Err(ServingRuntimeError::Runtime(RuntimeError::Backend(_)))
    ));
    assert_eq!(serving.scheduler().counts().prepared(), 0);
    assert_eq!(serving.scheduler().counts().terminal(), 2);
    assert!(
        serving
            .reclaim_next()
            .expect("reclaim")
            .expect("terminal request")
            .state()
            .is_none()
    );
}

#[derive(Debug)]
struct FaultManager {
    inner: LogicalStateManager,
    fail_commit: bool,
    fail_release: bool,
}
impl FaultManager {
    fn used_bytes(&self, location: StateLocation) -> Option<u64> {
        self.inner.used_bytes(location)
    }
}
impl StateManager for FaultManager {
    fn validate(&self, state: &InferenceStateSet) -> Result<(), StateError> {
        self.inner.validate(state)
    }
    fn allocate_kv(
        &mut self,
        spec: KvStateSpec,
        location: StateLocation,
    ) -> Result<KvState, StateError> {
        self.inner.allocate_kv(spec, location)
    }
    fn allocate_recurrent(
        &mut self,
        spec: RecurrentStateSpec,
        location: StateLocation,
    ) -> Result<RecurrentState, StateError> {
        self.inner.allocate_recurrent(spec, location)
    }
    fn commit_batch(
        &mut self,
        states: &mut [InferenceStateSet],
        positions: &[u32],
    ) -> Result<(), StateError> {
        if self.fail_commit {
            return Err(StateError::PositionRegression);
        }
        self.inner.commit_batch(states, positions)
    }
    fn release_set(&mut self, state: &InferenceStateSet) -> Result<(), StateError> {
        if self.fail_release {
            return Err(StateError::UnsupportedLocation);
        }
        self.inner.release_set(state)
    }
    fn release(
        &mut self,
        handle: StateHandle,
    ) -> Result<(), StateError> {
        self.inner.release(handle)
    }
}

fn allocated_state(
    serving: &mut ServingRuntime<TestProvider, DelayedBackend, FaultManager>,
) -> InferenceStateSet {
    let spec =
        KvStateSpec::new(1, 1, 2, 4, DataType::F16).expect("spec");
    let kv = serving
        .runtime_mut()
        .state_manager_mut()
        .allocate_kv(spec, StateLocation::Device(DeviceId::new(0)))
        .expect("allocation");
    InferenceStateSet::try_new(Some(kv), None).expect("state")
}

#[test]
fn missing_sampled_output_terminalizes_and_releases_request() {
    let mut serving = fixture(false);
    let request_id = RequestId::new(1).expect("request ID");
    let state = allocated_state(&mut serving);
    serving
        .admit_request(request(1), state, prompt(&[11]))
        .expect("admit");
    let id = serving.submit_ready_batch().expect("submit").expect("id");
    let event = ExecutionEvent::new(
        request_id,
        serving.plan().policy_version(),
        ExecutionPhase::Prefill,
        1,
        ExecutionMetrics::new(10, 0, 0),
    )
    .expect("event");
    serving.runtime_mut().backend_mut().pending.insert(
        id,
        (0, ExecutionBatchEvent::new(vec![event]).expect("batch")),
    );
    assert!(matches!(
        serving.poll_completions(),
        Err(ServingRuntimeError::Runtime(
            RuntimeError::CompletionMismatch
        ))
    ));
    assert_eq!(serving.submission_count(), 0);
    assert_eq!(serving.scheduler().counts().in_flight(), 0);
    assert_eq!(serving.scheduler().counts().terminal(), 1);
    assert_eq!(serving.generated_token_count(), 0);
    assert!(serving.reclaim_next().expect("reclaim").is_some());
    assert_eq!(
        serving
            .runtime()
            .state_manager()
            .used_bytes(StateLocation::Device(DeviceId::new(0))),
        Some(0)
    );
}

#[test]
fn batch_commit_failure_recovers_every_state_for_reclamation() {
    let mut serving = fixture(false);
    for id in [1, 2] {
        let state = allocated_state(&mut serving);
        serving
            .admit_request(request(id), state, prompt(&[11]))
            .expect("admit");
    }
    serving.submit_ready_batch().expect("submit");
    serving.runtime_mut().state_manager_mut().fail_commit = true;
    serving.poll_completions().expect("pending");
    assert!(matches!(
        serving.poll_completions(),
        Err(ServingRuntimeError::Runtime(RuntimeError::State(_)))
    ));
    assert_eq!(serving.scheduler().counts().in_flight(), 0);
    assert_eq!(serving.scheduler().counts().terminal(), 2);
    for _ in 0..2 {
        assert!(serving.reclaim_next().expect("reclaim").is_some());
    }
    assert_eq!(
        serving
            .runtime()
            .state_manager()
            .used_bytes(StateLocation::Device(DeviceId::new(0))),
        Some(0)
    );
}

#[test]
fn failed_release_retains_terminal_owner_until_both_release_layers_succeed() {
    let mut serving = fixture(false);
    let state = allocated_state(&mut serving);
    serving
        .admit_request(request(1), state, prompt(&[11]))
        .expect("admit");
    serving
        .cancel(RequestId::new(1).expect("id"))
        .expect("cancel");
    serving.runtime_mut().backend_mut().fail_release = true;
    assert!(serving.reclaim_next().is_err());
    assert_eq!(serving.scheduler().counts().terminal(), 1);
    serving.runtime_mut().backend_mut().fail_release = false;
    serving.runtime_mut().state_manager_mut().fail_release = true;
    assert!(serving.reclaim_next().is_err());
    assert_eq!(serving.scheduler().counts().terminal(), 1);
    assert!(
        serving
            .scheduler()
            .slot_for_request(RequestId::new(1).expect("id"))
            .is_some()
    );
    serving.runtime_mut().state_manager_mut().fail_release = false;
    assert!(serving.reclaim_next().expect("retry release").is_some());
    assert_eq!(
        serving
            .runtime()
            .state_manager()
            .used_bytes(StateLocation::Device(DeviceId::new(0))),
        Some(0)
    );
}

#[test]
fn admission_rejection_returns_allocations_for_release() {
    let mut serving = fixture(false);
    for id in 1..=4 {
        serving
            .admit_request(request(id), state(), prompt(&[11]))
            .expect("admit");
    }
    let state = allocated_state(&mut serving);
    let rejected = serving
        .admit_request(request(5), state, prompt(&[11]))
        .expect_err("backpressure");
    let (error, state) = rejected.into_parts();
    assert!(matches!(
        error,
        ServingRuntimeError::Scheduler(SchedulerError::Backpressure)
    ));
    serving
        .runtime_mut()
        .release_state_set(&state)
        .expect("release rejected state");
    assert_eq!(
        serving
            .runtime()
            .state_manager()
            .used_bytes(StateLocation::Device(DeviceId::new(0))),
        Some(0)
    );
}

#[test]
fn synchronous_completion_failure_returns_state_for_cleanup() {
    let mut serving = fixture(false);
    let state = allocated_state(&mut serving);
    let plan = serving.plan().clone();
    let segment = ExecutionSegment::new_shared(
        RequestId::new(1).expect("id"),
        ExecutionPhase::Prefill,
        1,
        1,
        0,
        plan.shared_state_requirements(),
    )
    .expect("segment")
    .with_token_input(ExecutionTokenInput::prompt(&prompt(&[11]), 0, 1).expect("input"))
    .expect("segment input")
    .with_sampling(SamplingParams::greedy(None));
    serving.runtime_mut().state_manager_mut().fail_commit = true;
    let error = serving
        .runtime_mut()
        .execute_segment(&plan, &segment, state)
        .expect_err("commit failure");
    let (error, states) = error.into_parts();
    assert!(matches!(error, RuntimeError::State(_)));
    assert_eq!(states.len(), 1);
    serving
        .runtime_mut()
        .release_state_set(&states[0])
        .expect("release returned state");
    assert_eq!(
        serving
            .runtime()
            .state_manager()
            .used_bytes(StateLocation::Device(DeviceId::new(0))),
        Some(0)
    );
}

#[test]
fn a_turn_polls_before_it_submits() {
    let mut serving = fixture(false);
    serving
        .admit_request(request(1), state(), prompt(&[11]))
        .expect("admit");
    let first = serving.drive_once().expect("submit");
    assert_eq!(first.completed_batches(), 0);
    assert!(first.submitted().is_some());
    let second = serving.drive_once().expect("pending");
    assert_eq!(second.completed_batches(), 0);
    assert!(second.submitted().is_none());
    let third = serving.drive_once().expect("complete and submit");
    assert_eq!(third.completed_batches(), 1);
    assert!(third.submitted().is_some());
}

#[test]
fn prompts_must_hold_tokens() {
    let mut serving = fixture(false);
    let refused = serving
        .admit_request(request(1), state(), Vec::new())
        .expect_err("empty prompt");
    assert_eq!(refused.into_parts().0, ServingRuntimeError::InvalidPrompt);
    let released = allocated_state(&mut serving);
    serving
        .runtime_mut()
        .release_state_set(&released)
        .expect("release");
    let refused = serving
        .admit_request(request(1), released, prompt(&[11]))
        .expect_err("state that is not live");
    assert_eq!(
        refused.into_parts().0,
        ServingRuntimeError::Runtime(RuntimeError::State(StateError::InvalidHandle))
    );
}

#[test]
fn output_outlives_the_reclaimed_request() {
    let mut serving = fixture(false);
    let request_id = RequestId::new(1).expect("id");
    serving
        .admit_request(request(1), state(), prompt(&[11]))
        .expect("admit");
    serving.submit_ready_batch().expect("submit");
    serving.poll_completions().expect("pending");
    serving.poll_completions().expect("complete");
    serving.finish(request_id).expect("finish");
    assert!(serving.reclaim_next().expect("reclaim").is_some());
    assert!(serving.reclaim_next().expect("nothing left").is_none());
    assert_eq!(
        serving.pop_generated_token(),
        Some(GeneratedToken::new(request_id, 7))
    );
    assert_eq!(serving.pop_generated_token(), None);
}

#[test]
fn schedulers_and_plans_share_a_policy() {
    let serving = fixture(false);
    let policy = PolicySnapshot::new(
        PolicyVersion::new(2).expect("policy version"),
        2,
        4,
        StateTierPreference::Automatic,
        SpeculationPolicy::Disabled,
    )
    .expect("policy");
    let scheduler = ServingScheduler::new(policy, SchedulerConfig::new(2, 2, 3).expect("config"));
    let plan = serving.plan().clone();
    let other = fixture(false);
    let description = other.runtime().provider().description.clone();
    let capabilities = other.runtime().backend().capabilities.clone();
    let runtime = ExecutionRuntime::new(
        TestProvider { description },
        DelayedBackend::new(capabilities, false),
        FaultManager {
            inner: LogicalStateManager::new(DeviceId::new(0), 1024, 0),
            fail_commit: false,
            fail_release: false,
        },
    );
    assert!(matches!(
        ServingRuntime::new(scheduler, runtime, plan),
        Err(ServingRuntimeError::PolicyMismatch)
    ));
}

#[test]
fn backends_may_not_reuse_an_identity_in_flight() {
    let mut serving = fixture(false);
    serving
        .admit_request(request(1), state(), prompt(&[11, 12]))
        .expect("first");
    let submission = serving
        .submit_ready_batch()
        .expect("submit")
        .expect("submission");
    serving.runtime_mut().backend_mut().next_submission = submission.get();
    serving
        .admit_request(request(2), state(), prompt(&[13]))
        .expect("second");
    assert_eq!(
        serving.submit_ready_batch(),
        Err(ServingRuntimeError::SubmissionCollision(submission))
    );
    assert_eq!(serving.submission_count(), 1);
    // The states of the refused work are back, and only those of the live submission are out.
    assert_eq!(serving.scheduler().counts().prepared(), 0);
    assert_eq!(serving.scheduler().counts().in_flight(), 1);
    assert_eq!(serving.scheduler().counts().terminal(), 1);
    let reclaimed = serving
        .reclaim_next()
        .expect("reclaim")
        .expect("refused request");
    assert_eq!(reclaimed.request().id(), RequestId::new(2).expect("id"));
    assert_eq!(reclaimed.lifecycle(), RequestLifecycle::Failed);

    // The same holds of an identity that was in flight before the runtime took over.
    let source = fixture(false);
    let mut scheduler = ServingScheduler::new(
        source.scheduler().policy(),
        SchedulerConfig::new(2, 2, 3).expect("config"),
    );
    scheduler
        .admit_request(request(1), state(), 2)
        .expect("earlier");
    let work = scheduler.schedule().expect("schedule");
    let earlier = BackendSubmissionId::new(1).expect("submission");
    scheduler
        .begin_submission(work[0], earlier)
        .expect("in flight");
    let runtime = ExecutionRuntime::new(
        TestProvider {
            description: source.runtime().provider().description.clone(),
        },
        DelayedBackend::new(source.runtime().backend().capabilities.clone(), false),
        FaultManager {
            inner: LogicalStateManager::new(DeviceId::new(0), 1024, 0),
            fail_commit: false,
            fail_release: false,
        },
    );
    let mut serving =
        ServingRuntime::new(scheduler, runtime, source.plan().clone()).expect("serving runtime");
    assert_eq!(serving.poll_completions(), Ok(0));
    assert_eq!(serving.scheduler().counts().in_flight(), 1);
    serving
        .admit_request(request(2), state(), prompt(&[13]))
        .expect("later");
    assert_eq!(
        serving.submit_ready_batch(),
        Err(ServingRuntimeError::Scheduler(
            SchedulerError::DuplicateSubmission(earlier)
        ))
    );
    assert_eq!(serving.submission_count(), 0);
    assert_eq!(serving.scheduler().counts().prepared(), 0);
    assert_eq!(serving.scheduler().counts().terminal(), 1);
    assert!(serving.reclaim_next().expect("reclaim").is_some());
}

#[test]
fn polls_account_for_every_submission() {
    let mut serving = fixture(false);
    serving
        .admit_request(request(1), state(), prompt(&[11]))
        .expect("first");
    serving.submit_ready_batch().expect("submit");
    serving
        .admit_request(request(2), state(), prompt(&[12]))
        .expect("second");
    serving.submit_ready_batch().expect("submit");
    assert_eq!(serving.submission_count(), 2);
    assert_eq!(serving.poll_completions(), Ok(0));
    assert_eq!(serving.submission_count(), 2);
    assert_eq!(serving.poll_completions(), Ok(2));
    assert_eq!(serving.submission_count(), 0);
    assert_eq!(
        serving.pop_generated_token(),
        Some(GeneratedToken::new(RequestId::new(1).expect("id"), 7))
    );
    assert_eq!(
        serving.pop_generated_token(),
        Some(GeneratedToken::new(RequestId::new(2).expect("id"), 7))
    );
}

/// Refuses every plan, whatever it describes.
struct StrictProvider {
    description: ModelDescription,
}

impl ModelProvider for StrictProvider {
    fn description(&self) -> &ModelDescription {
        &self.description
    }

    fn validate_plan(&self, _plan: &ExecutionPlan) -> Result<(), ModelError> {
        Err(ModelError::PlanModelMismatch)
    }
}

#[test]
fn a_stricter_provider_keeps_a_batch_from_the_backend() {
    let source = fixture(false);
    let mut runtime = ExecutionRuntime::new(
        StrictProvider {
            description: source.runtime().provider().description.clone(),
        },
        DelayedBackend::new(source.runtime().backend().capabilities.clone(), false),
        LogicalStateManager::new(DeviceId::new(0), 1024, 0),
    );
    let segment = ExecutionSegment::new(
        RequestId::new(1).expect("id"),
        ExecutionPhase::Prefill,
        1,
        1,
        0,
        Vec::new(),
    )
    .expect("segment");
    let refused = runtime
        .submit_segment(source.plan(), &segment, state())
        .expect_err("refused");
    let (error, states) = refused.into_parts();
    assert_eq!(error, RuntimeError::Model(ModelError::PlanModelMismatch));
    assert_eq!(states.len(), 1);
    assert!(runtime.backend().submitted_inputs.is_empty());
}
