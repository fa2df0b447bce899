use ribn::engine::backend::{
    BackendCapabilities, BackendError, BackendFeatures, BackendId, BackendKind,
    BackendSubmissionId, ComputeBackend,
};
use ribn::engine::device::DeviceId;
use ribn::engine::execution::{
    ExecutionBatch, ExecutionMetrics, ExecutionOutcome, ExecutionPhase, ExecutionPlan,
    ExecutionSegment, ExecutionStage, PlanError,
};
use ribn::engine::model::{ModelId, ModelRegionId};
use ribn::engine::nvidia::{completion_event, NvidiaBackend, NvidiaDispatcher};
use ribn::engine::policy::PolicyVersion;
use ribn::engine::request::{RequestId, SamplingParams};
use ribn::engine::state::{
    InferenceStateSet, KvStateSpec, StateLocation, StateRequirement,
};
use ribn::engine::state_manager::{LogicalStateManager, StateManager};
use ribn::engine::tensor::{DataType, Quantization};
use ribn::engine::weights::WeightBinding;
use std::collections::{HashMap, HashSet};

struct TestDispatcher;

impl NvidiaDispatcher for TestDispatcher {
    fn dispatch(
        &mut self,
        _plan: &ExecutionPlan,
        _segment: &ExecutionSegment,
        _weights: &WeightBinding,
        _state: &mut InferenceStateSet,
    ) -> Result<ExecutionOutcome, BackendError> {
        Ok(ExecutionOutcome::new(ExecutionMetrics::new(12, 4, 8)))
    }
}

#[derive(Default)]
struct BatchAwareDispatcher {
    batches: usize,
    segments: usize,
    releases: usize,
}

impl NvidiaDispatcher for BatchAwareDispatcher {
    fn dispatch(
        &mut self,
        _plan: &ExecutionPlan,
        _segment: &ExecutionSegment,
        _weights: &WeightBinding,
        _state: &mut InferenceStateSet,
    ) -> Result<ExecutionOutcome, BackendError> {
        self.segments += 1;
        Ok(ExecutionOutcome::new(ExecutionMetrics::new(99, 0, 0)))
    }

    fn dispatch_batch(
        &mut self,
        _plan: &ExecutionPlan,
        batch: &ExecutionBatch,
        _weights: &WeightBinding,
        states: &mut [InferenceStateSet],
    ) -> Result<Vec<ExecutionOutcome>, BackendError> {
        if batch.len() != states.len() {
            return Err(BackendError::StateCountMismatch);
        }
        self.batches += 1;
        Ok((0..batch.len())
            .map(|_| ExecutionOutcome::new(ExecutionMetrics::new(7, 0, 0)))
            .collect())
    }

    fn release_inference_state(
        &mut self,
        _state: &InferenceStateSet,
    ) -> Result<(), BackendError> {
        self.releases += 1;
        Ok(())
    }
}

#[derive(Default)]
struct AsyncDispatcher {
    submits: usize,
    polls: usize,
    pending: HashMap<BackendSubmissionId, usize>,
}

impl NvidiaDispatcher for AsyncDispatcher {
    fn dispatch(
        &mut self,
        _plan: &ExecutionPlan,
        _segment: &ExecutionSegment,
        _weights: &WeightBinding,
        _state: &mut InferenceStateSet,
    ) -> Result<ExecutionOutcome, BackendError> {
        Err(BackendError::ExecutionFailed(
            "async dispatcher should not use synchronous dispatch".to_owned(),
        ))
    }

    fn submit_batch(
        &mut self,
        submission: BackendSubmissionId,
        _plan: &ExecutionPlan,
        batch: &ExecutionBatch,
        _weights: &WeightBinding,
        states: &mut [InferenceStateSet],
    ) -> Result<Option<Vec<ExecutionOutcome>>, BackendError> {
        if batch.len() != states.len() {
            return Err(BackendError::StateCountMismatch);
        }
        self.submits += 1;
        self.pending.insert(submission, batch.len());
        Ok(None)
    }

    fn poll_batch(
        &mut self,
        submission: BackendSubmissionId,
    ) -> Result<Option<Vec<ExecutionOutcome>>, BackendError> {
        self.polls += 1;
        let count = self
            .pending
            .remove(&submission)
            .ok_or(BackendError::UnknownSubmission(submission))?;
        Ok(Some(
            (0..count)
                .map(|_| ExecutionOutcome::new(ExecutionMetrics::new(5, 0, 0)))
                .collect(),
        ))
    }
}

#[derive(Default)]
struct FailingAsyncDispatcher {
    pending: HashSet<BackendSubmissionId>,
}

impl NvidiaDispatcher for FailingAsyncDispatcher {
    fn dispatch(
        &mut self,
        _plan: &ExecutionPlan,
        _segment: &ExecutionSegment,
        _weights: &WeightBinding,
        _state: &mut InferenceStateSet,
    ) -> Result<ExecutionOutcome, BackendError> {
        unreachable!("failing async dispatcher does not synchronously dispatch")
    }

    fn submit_batch(
        &mut self,
        submission: BackendSubmissionId,
        _plan: &ExecutionPlan,
        batch: &ExecutionBatch,
        _weights: &WeightBinding,
        states: &mut [InferenceStateSet],
    ) -> Result<Option<Vec<ExecutionOutcome>>, BackendError> {
        if batch.len() != states.len() {
            return Err(BackendError::StateCountMismatch);
        }
        self.pending.insert(submission);
        Ok(None)
    }

    fn poll_batch(
        &mut self,
        submission: BackendSubmissionId,
    ) -> Result<Option<Vec<ExecutionOutcome>>, BackendError> {
        if !self.pending.remove(&submission) {
            return Err(BackendError::UnknownSubmission(submission));
        }
        Err(BackendError::ExecutionFailed(
            "terminal async failure".to_owned(),
        ))
    }
}

fn empty_decode_fixture<D: NvidiaDispatcher>(
    dispatcher: D,
) -> (
    NvidiaBackend<D>,
    ExecutionPlan,
    ExecutionBatch,
    Vec<InferenceStateSet>,
) {
    let device = DeviceId::new(0);
    let backend_id = BackendId::new("cuda").expect("backend ID");
    let capabilities = BackendCapabilities::new(
        backend_id.clone(),
        device,
        BackendKind::Cuda,
        24 * 1024 * 1024 * 1024,
        BackendFeatures::new(vec![DataType::F16], vec![], false, true),
    );
    let backend = NvidiaBackend::new(capabilities, dispatcher).expect("CUDA backend");
    let model = ModelId::new("test-model").expect("model ID");
    let plan = ExecutionPlan::new(
        model.clone(),
        backend_id,
        device,
        PolicyVersion::new(1).expect("policy version"),
        vec![ExecutionStage::new(
            ModelRegionId::new(0),
            ExecutionPhase::Decode,
        )],
        Vec::new(),
        WeightBinding::empty(model, device),
    )
    .expect("plan");
    let batch = ExecutionBatch::new(vec![
        ExecutionSegment::new(
            RequestId::new(1).expect("request ID"),
            ExecutionPhase::Decode,
            1,
            1,
            0,
            Vec::new(),
        )
        .expect("segment"),
    ])
    .expect("batch");
    let states = vec![InferenceStateSet::new(Vec::new()).expect("state")];
    (backend, plan, batch, states)
}

#[test]
fn backend_dispatches_only_after_capability_and_state_validation() {
    let device = DeviceId::new(0);
    let capabilities = BackendCapabilities::new(
        BackendId::new("cuda").expect("backend ID"),
        device,
        BackendKind::Cuda,
        24 * 1024 * 1024 * 1024,
        BackendFeatures::new(
            vec![DataType::F16],
            vec![Quantization::GgufQ4Km],
            false,
            true,
        ),
    );
    let mut backend = NvidiaBackend::new(capabilities, TestDispatcher).expect("CUDA backend");
    let model = ModelId::new("test-model").expect("model ID");
    let policy = PolicyVersion::new(1).expect("policy version");
    let requirement = StateRequirement::FullAttentionKv(
        KvStateSpec::new(1, 1, 2, 1, DataType::F16).expect("KV spec"),
    );
    let plan = ExecutionPlan::new(
        model.clone(),
        BackendId::new("cuda").expect("backend ID"),
        device,
        policy,
        vec![ExecutionStage::new(
            ModelRegionId::new(0),
            ExecutionPhase::Decode,
        )],
        vec![requirement],
        WeightBinding::empty(model.clone(), device),
    )
    .expect("plan");
    let request = RequestId::new(1).expect("request ID");
    let segment =
        ExecutionSegment::new(request, ExecutionPhase::Decode, 1, 1, 0, vec![requirement])
            .expect("segment");
    let batch = ExecutionBatch::new(vec![segment]).expect("batch");
    let spec = match requirement {
        StateRequirement::FullAttentionKv(spec) => spec,
        StateRequirement::Recurrent(_) => unreachable!(),
    };
    let mut manager = LogicalStateManager::new(device, 1024, 0);
    let kv = manager
        .allocate_kv(spec, StateLocation::Device(device))
        .expect("state allocation");
    let state = InferenceStateSet::try_new(Some(kv), None).expect("state set");
    let submission = backend.submit(&plan, &batch, &mut [state]).expect("submit");
    let event = backend.wait(submission).expect("completion");
    assert_eq!(event.events()[0].metrics().elapsed_nanos(), 12);
    assert_eq!(event.events()[0].policy_version(), policy);
}

#[test]
fn backend_rejects_missing_requested_output_token() {
    let device = DeviceId::new(0);
    let backend_id = BackendId::new("cuda").expect("backend ID");
    let capabilities = BackendCapabilities::new(
        backend_id.clone(),
        device,
        BackendKind::Cuda,
        24 * 1024 * 1024 * 1024,
        BackendFeatures::new(vec![DataType::F16], vec![], false, true),
    );
    let mut backend = NvidiaBackend::new(capabilities, TestDispatcher).expect("CUDA backend");
    let model = ModelId::new("test-model").expect("model ID");
    let plan = ExecutionPlan::new(
        model.clone(),
        backend_id,
        device,
        PolicyVersion::new(1).expect("policy version"),
        vec![ExecutionStage::new(
            ModelRegionId::new(0),
            ExecutionPhase::Decode,
        )],
        Vec::new(),
        WeightBinding::empty(model, device),
    )
    .expect("plan");
    let segment = ExecutionSegment::new(
        RequestId::new(1).expect("request ID"),
        ExecutionPhase::Decode,
        1,
        1,
        0,
        Vec::new(),
    )
    .expect("segment")
    .with_sampling(SamplingParams::greedy(None));
    let batch = ExecutionBatch::new(vec![segment]).expect("batch");
    let mut states = vec![InferenceStateSet::new(Vec::new()).expect("state")];

    assert!(matches!(
        backend.submit(&plan, &batch, &mut states),
        Err(BackendError::ExecutionFailed(_))
    ));
}

#[test]
fn backend_forwards_state_release_to_the_dispatcher() {
    let device = DeviceId::new(0);
    let capabilities = BackendCapabilities::new(
        BackendId::new("cuda").expect("backend ID"),
        device,
        BackendKind::Cuda,
        24 * 1024 * 1024 * 1024,
        BackendFeatures::new(vec![DataType::F16], vec![], false, true),
    );
    let mut backend = NvidiaBackend::new(capabilities, BatchAwareDispatcher::default())
        .expect("CUDA backend");
    let state = InferenceStateSet::new(Vec::new()).expect("state");

    backend
        .release_inference_state(&state)
        .expect("release state");
    assert_eq!(backend.dispatcher().releases, 1);
}

#[test]
fn backend_forwards_the_whole_scheduler_batch_to_the_dispatcher() {
    let device = DeviceId::new(0);
    let backend_id = BackendId::new("cuda").expect("backend ID");
    let capabilities = BackendCapabilities::new(
        backend_id.clone(),
        device,
        BackendKind::Cuda,
        24 * 1024 * 1024 * 1024,
        BackendFeatures::new(vec![DataType::F16], vec![], false, true),
    );
    let mut backend = NvidiaBackend::new(capabilities, BatchAwareDispatcher::default())
        .expect("CUDA backend");
    let model = ModelId::new("test-model").expect("model ID");
    let policy = PolicyVersion::new(1).expect("policy version");
    let plan = ExecutionPlan::new(
        model.clone(),
        backend_id,
        device,
        policy,
        vec![ExecutionStage::new(
            ModelRegionId::new(0),
            ExecutionPhase::Decode,
        )],
        Vec::new(),
        WeightBinding::empty(model, device),
    )
    .expect("plan");
    let batch = ExecutionBatch::new(vec![
        ExecutionSegment::new(
            RequestId::new(1).expect("request ID"),
            ExecutionPhase::Decode,
            1,
            1,
            0,
            Vec::new(),
        )
        .expect("segment"),
        ExecutionSegment::new(
            RequestId::new(2).expect("request ID"),
            ExecutionPhase::Decode,
            1,
            1,
            0,
            Vec::new(),
        )
        .expect("segment"),
    ])
    .expect("batch");
    let empty_state = || InferenceStateSet::new(Vec::new()).expect("state");
    let mut states = vec![empty_state(), empty_state()];

    let submission = backend.submit(&plan, &batch, &mut states).expect("submit");
    let completed = backend.wait(submission).expect("completion");

    assert_eq!(completed.len(), 2);
    assert!(
        completed
            .events()
            .iter()
            .all(|event| event.metrics().elapsed_nanos() == 7)
    );
    assert_eq!(backend.dispatcher().batches, 1);
    assert_eq!(backend.dispatcher().segments, 0);
}

#[test]
fn backend_supports_dispatcher_owned_async_completion() {
    let (mut backend, plan, batch, mut states) =
        empty_decode_fixture(AsyncDispatcher::default());

    let submission = backend.submit(&plan, &batch, &mut states).expect("submit");
    assert_eq!(backend.dispatcher().submits, 1);
    assert_eq!(backend.dispatcher().polls, 0);

    let completed = backend
        .poll(submission)
        .expect("poll async dispatcher")
        .expect("completion");
    assert_eq!(completed.events()[0].metrics().elapsed_nanos(), 5);
    assert_eq!(backend.dispatcher().polls, 1);
    assert_eq!(backend.pending_submissions(), 0);
}

#[test]
fn terminal_async_failure_releases_backend_pending_metadata() {
    let (mut backend, plan, batch, mut states) =
        empty_decode_fixture(FailingAsyncDispatcher::default());
    let submission = backend.submit(&plan, &batch, &mut states).expect("submit");
    assert_eq!(backend.pending_submissions(), 1);

    assert!(matches!(
        backend.poll(submission),
        Err(BackendError::ExecutionFailed(_))
    ));
    assert_eq!(backend.pending_submissions(), 0);
    assert!(backend.dispatcher().pending.is_empty());
    assert!(matches!(
        backend.poll(submission),
        Err(BackendError::UnknownSubmission(actual)) if actual == submission
    ));
}

#[test]
fn outcomes_must_cover_the_batch() {
    let (_, plan, batch, _) = empty_decode_fixture(TestDispatcher);
    let version = plan.policy_version();
    assert_eq!(
        completion_event(&batch, version, Vec::new()),
        Err(BackendError::ExecutionFailed(
            "NVIDIA dispatcher returned 0 outcomes for 1 request segments".to_owned()
        ))
    );
    let unasked = ExecutionOutcome::new(ExecutionMetrics::new(1, 2, 3)).with_output_token(4);
    assert_eq!(
        completion_event(&batch, version, vec![unasked]),
        Err(BackendError::ExecutionFailed(
            "NVIDIA dispatcher output-token presence did not match sampling for request 1"
                .to_owned()
        ))
    );
    let outcome = ExecutionOutcome::new(ExecutionMetrics::new(1, 2, 3));
    let event = completion_event(&batch, version, vec![outcome]).expect("completion");
    assert_eq!(event.events()[0].metrics(), ExecutionMetrics::new(1, 2, 3));
    assert_eq!(event.events()[0].token_count(), 1);
}

#[test]
fn only_cuda_capabilities_are_accepted() {
    let capabilities = BackendCapabilities::new(
        BackendId::new("metal").expect("backend ID"),
        DeviceId::new(0),
        BackendKind::Metal,
        1024,
        BackendFeatures::new(vec![DataType::F16], vec![], true, false),
    );
    assert!(capabilities.supports_dtype(DataType::F16));
    assert!(!capabilities.supports_dtype(DataType::F32));
    assert!(capabilities.supports_graph_capture());
    assert!(matches!(
        NvidiaBackend::new(capabilities, TestDispatcher),
        Err(BackendError::Unsupported("CUDA backend capabilities"))
    ));
}

#[test]
fn validation_precedes_dispatch() {
    let (mut backend, plan, batch, _) = empty_decode_fixture(BatchAwareDispatcher::default());
    assert_eq!(
        backend.submit(&plan, &batch, &mut []),
        Err(BackendError::StateCountMismatch)
    );
    let prefill = ExecutionBatch::new(vec![ExecutionSegment::new(
        RequestId::new(1).expect("request ID"),
        ExecutionPhase::Prefill,
        1,
        1,
        0,
        Vec::new(),
    )
    .expect("segment")])
    .expect("batch");
    let mut states = vec![InferenceStateSet::new(Vec::new()).expect("state")];
    assert_eq!(
        backend.submit(&plan, &prefill, &mut states),
        Err(BackendError::InvalidPlan(PlanError::SegmentPhaseMismatch))
    );
    let device = DeviceId::new(1);
    let mut manager = LogicalStateManager::new(device, 1024, 0);
    let spec = KvStateSpec::new(1, 1, 2, 1, DataType::F16).expect("KV spec");
    let kv = manager
        .allocate_kv(spec, StateLocation::Device(device))
        .expect("allocation");
    let mut elsewhere = vec![InferenceStateSet::try_new(Some(kv), None).expect("state")];
    assert_eq!(
        backend.submit(&plan, &batch, &mut elsewhere),
        Err(BackendError::StateMismatch(
            "state is resident on a different device"
        ))
    );
    assert_eq!(backend.dispatcher().batches, 0);
    let unknown = BackendSubmissionId::new(5).expect("submission");
    assert_eq!(
        backend.poll(unknown),
        Err(BackendError::UnknownSubmission(unknown))
    );
}

#[derive(Default)]
struct OrderedDispatcher {
    visited: Vec<u64>,
    failing: Option<u64>,
}

impl NvidiaDispatcher for OrderedDispatcher {
    fn dispatch(
        &mut self,
        _plan: &ExecutionPlan,
        segment: &ExecutionSegment,
        _weights: &WeightBinding,
        _state: &mut InferenceStateSet,
    ) -> Result<ExecutionOutcome, BackendError> {
        let request = segment.request().get();
        self.visited.push(request);
        if self.failing == Some(request) {
            return Err(BackendError::ExecutionFailed("lost".to_owned()));
        }
        Ok(ExecutionOutcome::new(ExecutionMetrics::new(request, 0, 0)))
    }
}

#[test]
fn segments_are_dispatched_in_order_until_one_fails() {
    let (_, plan, _, _) = empty_decode_fixture(TestDispatcher);
    let segments = [3_u64, 1, 2]
        .iter()
        .map(|request| {
            ExecutionSegment::new(
                RequestId::new(*request).expect("request ID"),
                ExecutionPhase::Decode,
                1,
                1,
                0,
                Vec::new(),
            )
            .expect("segment")
        })
        .collect();
    let batch = ExecutionBatch::new(segments).expect("batch");
    let mut states: Vec<InferenceStateSet> = (0..3)
        .map(|_| InferenceStateSet::new(Vec::new()).expect("state"))
        .collect();

    let mut dispatcher = OrderedDispatcher::default();
    let outcomes = dispatcher
        .dispatch_batch(&plan, &batch, plan.weights(), &mut states)
        .expect("outcomes");
    assert_eq!(dispatcher.visited, vec![3, 1, 2]);
    assert_eq!(
        outcomes
            .iter()
            .map(|outcome| outcome.metrics().elapsed_nanos())
            .collect::<Vec<_>>(),
        vec![3, 1, 2]
    );

    let mut failing = OrderedDispatcher {
        visited: Vec::new(),
        failing: Some(1),
    };
    assert_eq!(
        failing.dispatch_batch(&plan, &batch, plan.weights(), &mut states),
        Err(BackendError::ExecutionFailed("lost".to_owned()))
    );
    assert_eq!(failing.visited, vec![3, 1]);
    assert_eq!(
        failing.dispatch_batch(&plan, &batch, plan.weights(), &mut states[..2]),
        Err(BackendError::StateCountMismatch)
    );
    assert_eq!(failing.visited, vec![3, 1]);
    assert_eq!(
        failing.poll_batch(BackendSubmissionId::new(1).expect("submission")),
        Err(BackendError::Unsupported(
            "asynchronous NVIDIA dispatcher completion"
        ))
    );
}

#[test]
fn a_dispatcher_that_executes_at_once_owes_nothing() {
    let (mut backend, plan, batch, mut states) = empty_decode_fixture(TestDispatcher);
    let submission = BackendSubmissionId::new(3).expect("submission");
    assert_eq!(
        backend.dispatcher_mut().poll_batch(submission),
        Err(BackendError::Unsupported(
            "asynchronous NVIDIA dispatcher completion"
        ))
    );
    assert_eq!(
        backend.dispatcher_mut().release_inference_state(&states[0]),
        Ok(())
    );
    let outcomes = backend
        .dispatcher_mut()
        .submit_batch(submission, &plan, &batch, plan.weights(), &mut states)
        .expect("submit")
        .expect("outcomes");
    assert_eq!(outcomes.len(), batch.len());
    assert_eq!(outcomes[0].metrics().elapsed_nanos(), 12);

    let mut failing = OrderedDispatcher {
        visited: Vec::new(),
        failing: Some(batch.segments()[0].request().get()),
    };
    assert_eq!(
        failing.submit_batch(submission, &plan, &batch, plan.weights(), &mut states),
        Err(BackendError::ExecutionFailed("lost".to_owned()))
    );
}

#[test]
fn waiting_polls_until_the_dispatcher_answers() {
    let (mut backend, plan, batch, mut states) = empty_decode_fixture(AsyncDispatcher::default());
    let submission = backend.submit(&plan, &batch, &mut states).expect("submit");
    assert_eq!(backend.pending_submissions(), 1);
    let event = backend.wait(submission).expect("completion");
    assert_eq!(event.len(), batch.len());
    assert_eq!(backend.dispatcher().polls, 1);
    assert_eq!(backend.pending_submissions(), 0);
    assert_eq!(
        backend.wait(submission),
        Err(BackendError::UnknownSubmission(submission))
    );
}

/// Keeps every identity under which it was handed a batch.
#[derive(Default)]
struct RecordingDispatcher {
    submitted: Vec<BackendSubmissionId>,
    polled: Vec<BackendSubmissionId>,
}

impl NvidiaDispatcher for RecordingDispatcher {
    fn dispatch(
        &mut self,
        _plan: &ExecutionPlan,
        _segment: &ExecutionSegment,
        _weights: &WeightBinding,
        _state: &mut InferenceStateSet,
    ) -> Result<ExecutionOutcome, BackendError> {
        unreachable!("batches are queued")
    }

    fn submit_batch(
        &mut self,
        submission: BackendSubmissionId,
        _plan: &ExecutionPlan,
        _batch: &ExecutionBatch,
        _weights: &WeightBinding,
        _states: &mut [InferenceStateSet],
    ) -> Result<Option<Vec<ExecutionOutcome>>, BackendError> {
        self.submitted.push(submission);
        Ok(None)
    }

    fn poll_batch(
        &mut self,
        submission: BackendSubmissionId,
    ) -> Result<Option<Vec<ExecutionOutcome>>, BackendError> {
        self.polled.push(submission);
        Ok(None)
    }
}

#[test]
fn the_dispatcher_sees_the_identity_of_each_submission() {
    let (mut backend, plan, batch, mut states) =
        empty_decode_fixture(RecordingDispatcher::default());
    let first = backend.submit(&plan, &batch, &mut states).expect("first");
    let second = backend.submit(&plan, &batch, &mut states).expect("second");
    assert_eq!((first.get(), second.get()), (1, 2));
    assert_eq!(backend.dispatcher().submitted, vec![first, second]);
    assert_eq!(backend.poll(second), Ok(None));
    assert_eq!(backend.poll(first), Ok(None));
    assert_eq!(backend.dispatcher().polled, vec![second, first]);
    assert_eq!(backend.pending_submissions(), 2);
}
