//! Run an encoder through the batching runtime, with a device that only counts.

use ribn::batch::executor::{
    BatchConfig, BatchExecutor, BatchSelection, BlockReason, CancelOutcome, EnqueueError, Job,
    JobOutput, Rejection, RequestIds, StepOutcome,
};
use ribn::batch::runtime::BatchRuntime;
use ribn::bert::config::{BertConfig, ConfigError};
use ribn::bert::encoder::{
    check_host, CudaBertEncoder, EncoderError, EncoderSubmission, EnqueueFailure,
};
use ribn::bert::executor::{EncoderCompletion, EncoderResult};
use ribn::bert::forward::{
    forward_pass, projection_dimensions, Buffer, BufferLengths, DenseParameters, EncoderStep,
    GemmDimensions, NormParameters,
};
use ribn::bert::request::{shape, EncoderConstraint, EncoderRequest};
use ribn::bert::weights::{HostWeights, TensorData, WeightError, WeightLoader};
use ribn::engine::single::Single;
use ribn::foundation::parameter::{ParameterVersion, ScalarType};
use ribn::foundation::pool::BytePool;
use ribn::foundation::readiness::SourceIds;

fn fresh_pool(capacity: u64) -> BytePool {
    BytePool::new(SourceIds::new().take().expect("source"), capacity)
}

type Submission = EncoderSubmission<Vec<EncoderStep>>;

fn model() -> BertConfig {
    BertConfig {
        vocab_size: 13,
        hidden_size: 12,
        num_hidden_layers: 2,
        num_attention_heads: 3,
        intermediate_size: 20,
        max_position_embeddings: 16,
        type_vocab_size: 3,
        layer_norm_eps: Single::from_bits(1.0e-12_f32.to_bits()),
    }
}

fn weights() -> HostWeights {
    let mut loader = WeightLoader::new(model());
    while let Some(required) = loader.next_requirement() {
        let values: usize = required.shape.iter().product();
        let found = TensorData {
            scalar_type: ScalarType::F32,
            shape: required.shape,
            data: vec![0; 4 * values],
        };
        loader.supply_next(Ok(found)).expect("tensor");
    }
    loader.finish()
}

/// An encoder whose device keeps the planned steps and fails on request.
struct Device {
    encoder: CudaBertEncoder<(), Submission>,
    enqueued: usize,
    fail_at: Option<usize>,
    fail_with_storage: bool,
}

impl Device {
    fn enqueue(&mut self, input: &EncoderRequest) -> Result<Submission, EnqueueFailure<Submission>> {
        let plan = self.encoder.plan(input).map_err(|error| EnqueueFailure {
            error,
            storage: None,
        })?;
        let submission = EncoderSubmission::new(plan.shape, plan.lengths, plan.steps);
        let fails = self.fail_at == Some(self.enqueued);
        self.enqueued += 1;
        if fails {
            return Err(EnqueueFailure {
                error: EncoderError::Driver("injected".to_owned()),
                storage: if self.fail_with_storage {
                    Some(submission)
                } else {
                    None
                },
            });
        }
        Ok(submission)
    }
}

impl BatchExecutor for Device {
    type Input = EncoderRequest;
    type Output = Submission;
    type Error = EncoderError;
    type Constraint = EncoderConstraint;

    fn parameter_version(&self) -> ParameterVersion {
        self.encoder.parameter_version()
    }

    fn max_batch_items(&self) -> usize {
        self.encoder.max_batch_items()
    }

    fn select_batch(&self, candidates: &[&Self::Input]) -> BatchSelection<Self::Constraint> {
        self.encoder.select_batch(candidates)
    }

    fn retained_bytes(&self, input: &Self::Input) -> u64 {
        self.encoder.retained_bytes(input)
    }

    fn execute(
        &mut self,
        pool: &mut BytePool,
        batch: Vec<Job<Self::Input>>,
    ) -> Result<Vec<JobOutput<Self::Output>>, EnqueueError<Self::Error>> {
        let mut enqueued = Vec::new();
        let mut jobs = batch.into_iter();
        while let Some(job) = jobs.next() {
            let (request, input, lease) = job.into_parts();
            match self.enqueue(&input) {
                Ok(submission) => enqueued.push(JobOutput::new(request, submission, lease)),
                Err(failure) => {
                    let unreached = jobs.map(|job| job.into_parts().2).collect();
                    return Err(self
                        .encoder
                        .settle_failure(pool, enqueued, failure, lease, unreached));
                }
            }
        }
        Ok(enqueued)
    }

    fn retire(&mut self, pool: &mut BytePool, outputs: Vec<JobOutput<Self::Output>>) {
        self.encoder.retire(pool, outputs, false);
    }
}

fn config() -> BatchConfig {
    BatchConfig {
        max_waiting_requests: 8,
        max_retained_results: 4,
    }
}

fn encoder() -> Device {
    Device {
        encoder: CudaBertEncoder::from_host(model(), &weights(), ()).expect("prepare encoder"),
        enqueued: 0,
        fail_at: None,
        fail_with_storage: false,
    }
}

fn result(completion: EncoderCompletion<Submission>) -> EncoderResult<Submission> {
    let EncoderCompletion::Result(result) = completion else {
        panic!("an executing request is not a rejection");
    };
    result
}

fn give_up(pool: &mut BytePool, result: EncoderResult<Submission>) {
    let (_, lease) = result.into_parts();
    pool.release(lease.expect("charge"));
}

#[test]
fn the_shared_pool_bounds_how_many_requests_execute() {
    let encoder = encoder();
    let sequence = 4;
    let envelope = encoder.encoder.request_bytes(sequence).expect("envelope");
    assert!(envelope > 0);
    // Exactly two requests' worth of device bytes.
    let mut pool = fresh_pool(2 * envelope);
    let mut ids = RequestIds::new();
    let mut runtime = BatchRuntime::new(encoder, config()).expect("runtime");
    for _ in 0..3 {
        runtime
            .submit(
                &mut ids,
                &pool,
                EncoderRequest::single_segment(vec![4, 1, 9, 3]),
            )
            .expect("request");
    }

    // The accepted range is the prefix whose real envelopes the pool can cover.
    assert_eq!(
        runtime.step(&mut pool).expect("step"),
        StepOutcome::Executed { results: 2 }
    );
    assert_eq!(pool.granted(), 2 * envelope);
    assert_eq!(
        runtime.step(&mut pool).expect("blocked step"),
        StepOutcome::Blocked(BlockReason::Pool {
            requested: envelope,
            available: 0
        })
    );

    // The envelope the pool was charged for is the storage that actually exists.
    let first = result(EncoderCompletion::from_completed(
        runtime.pop_completed().expect("first completion"),
    ));
    assert_eq!(first.device_bytes(), envelope);
    assert_eq!(first.retained_bytes(), envelope);
    assert_eq!(
        pool.granted(),
        2 * envelope,
        "a popped device result keeps its charge until it is released"
    );
    let hidden = first.submission().shape().hidden();
    assert_eq!(first.submission().shape().hidden_values(), sequence * hidden);

    // Releasing the result frees exactly its own envelope, admitting the queued
    // request.
    give_up(&mut pool, first);
    assert_eq!(pool.granted(), envelope);
    let second = runtime.pop_completed().expect("second completion");
    second.into_outcome(&mut pool);
    assert_eq!(pool.granted(), 0);
    assert_eq!(
        runtime.step(&mut pool).expect("step after release"),
        StepOutcome::Executed { results: 1 }
    );

    // The last request still owns its charge and completes normally.
    let third = result(EncoderCompletion::from_completed(
        runtime.pop_completed().expect("third completion"),
    ));
    assert_eq!(third.lease().map(|lease| lease.bytes()), Some(envelope));
    assert_eq!(
        runtime.executor().encoder.quarantined_requests(),
        0,
        "a successful run must not leave the encoder holding device work"
    );
}

#[test]
fn a_request_longer_than_the_model_is_rejected_while_a_peer_progresses() {
    let encoder = encoder();
    let max = encoder.encoder.config().max_position_embeddings;
    let mut pool = fresh_pool(1 << 24);
    let mut ids = RequestIds::new();
    let mut runtime = BatchRuntime::new(encoder, config()).expect("runtime");

    let oversized = runtime
        .submit(
            &mut ids,
            &pool,
            EncoderRequest::single_segment(vec![1; max + 1]),
        )
        .expect("oversized request");
    let healthy = runtime
        .submit(
            &mut ids,
            &pool,
            EncoderRequest::single_segment(vec![4, 1, 9, 3]),
        )
        .expect("healthy request");

    // Permanent request-local infeasibility is delivered without waiting, and the
    // peer keeps moving.
    assert_eq!(
        runtime.step(&mut pool).expect("rejecting step"),
        StepOutcome::Rejected { request: oversized }
    );
    let completion =
        EncoderCompletion::from_completed(runtime.pop_completed().expect("rejection entry"));
    let EncoderCompletion::Rejected { request, rejection } = completion else {
        panic!("an infeasible request never executes");
    };
    assert_eq!(request, oversized);
    assert!(matches!(
        rejection,
        Rejection::Executor(EncoderConstraint::SequenceTooLong {
            max_position_embeddings,
            ..
        }) if max_position_embeddings == max
    ));

    assert_eq!(
        runtime.step(&mut pool).expect("healthy peer"),
        StepOutcome::Executed { results: 1 }
    );
    let peer = result(EncoderCompletion::from_completed(
        runtime.pop_completed().expect("healthy completion"),
    ));
    assert_eq!(peer.request(), healthy);
}

#[test]
fn a_request_larger_than_the_whole_pool_is_rejected_while_a_peer_progresses() {
    let encoder = encoder();
    let small = encoder.encoder.request_bytes(4).expect("small envelope");
    let large = encoder.encoder.request_bytes(12).expect("large envelope");
    assert!(large > small);
    // A pool that can never grant the large request, whatever is released.
    let mut pool = fresh_pool(large - 1);
    let mut ids = RequestIds::new();
    let mut runtime = BatchRuntime::new(encoder, config()).expect("runtime");

    let oversized = runtime
        .submit(&mut ids, &pool, EncoderRequest::single_segment(vec![1; 12]))
        .expect("oversized request");
    let healthy = runtime
        .submit(
            &mut ids,
            &pool,
            EncoderRequest::single_segment(vec![4, 1, 9, 3]),
        )
        .expect("healthy request");
    assert!(small <= pool.capacity());

    assert_eq!(
        runtime.step(&mut pool).expect("rejecting step"),
        StepOutcome::Rejected { request: oversized }
    );
    let completion =
        EncoderCompletion::from_completed(runtime.pop_completed().expect("rejection entry"));
    let EncoderCompletion::Rejected { rejection, .. } = completion else {
        panic!("an oversized request never executes");
    };
    assert!(matches!(
        rejection,
        Rejection::RetainedOutputTooLarge { requested, capacity }
            if requested == large && capacity == large - 1
    ));

    assert_eq!(
        runtime.step(&mut pool).expect("healthy peer"),
        StepOutcome::Executed { results: 1 }
    );
    let peer = result(EncoderCompletion::from_completed(
        runtime.pop_completed().expect("healthy completion"),
    ));
    assert_eq!(peer.request(), healthy);
    assert_eq!(peer.device_bytes(), small);
}

#[test]
fn cancelling_a_request_that_is_waiting_for_capacity_runs_nothing() {
    let encoder = encoder();
    let envelope = encoder.encoder.request_bytes(4).expect("envelope");
    // A sibling holds the whole pool, so the request can only wait.
    let mut pool = fresh_pool(envelope);
    let held = pool.reserve(envelope).expect("sibling reservation");
    let mut ids = RequestIds::new();
    let mut runtime = BatchRuntime::new(encoder, config()).expect("runtime");
    let request = runtime
        .submit(
            &mut ids,
            &pool,
            EncoderRequest::single_segment(vec![4, 1, 9, 3]),
        )
        .expect("request");
    assert!(matches!(
        runtime.step(&mut pool).expect("blocked step"),
        StepOutcome::Blocked(BlockReason::Pool { .. })
    ));

    assert_eq!(runtime.cancel(&mut pool, request), CancelOutcome::Queued);
    assert_eq!(pool.granted(), envelope, "the sibling keeps its charge");
    assert_eq!(
        runtime.step(&mut pool).expect("cancelling step"),
        StepOutcome::Cancelled { request }
    );
    let completion =
        EncoderCompletion::from_completed(runtime.pop_completed().expect("cancellation entry"));
    let EncoderCompletion::Cancelled { request: cancelled } = completion else {
        panic!("a cancelled request never executes");
    };
    assert_eq!(cancelled, request);
    assert_eq!(runtime.executor().encoder.quarantined_requests(), 0);

    pool.release(held);
    assert_eq!(
        runtime.step(&mut pool).expect("idle step"),
        StepOutcome::Idle,
        "a cancelled request is never executed"
    );
    assert_eq!(pool.granted(), 0);
}

#[test]
fn cancelling_a_retained_result_leaves_its_charge_with_its_storage() {
    let encoder = encoder();
    let envelope = encoder.encoder.request_bytes(4).expect("envelope");
    let mut pool = fresh_pool(2 * envelope);
    let mut ids = RequestIds::new();
    let mut runtime = BatchRuntime::new(encoder, config()).expect("runtime");
    let request = runtime
        .submit(
            &mut ids,
            &pool,
            EncoderRequest::single_segment(vec![4, 1, 9, 3]),
        )
        .expect("request");
    assert_eq!(
        runtime.step(&mut pool).expect("step"),
        StepOutcome::Executed { results: 1 }
    );
    assert_eq!(pool.granted(), envelope);

    assert_eq!(runtime.cancel(&mut pool, request), CancelOutcome::Discarded);
    // The runtime hands the result and its charge to the encoder, so the two never
    // separate: either the encoder still holds both, or a proven drain released both.
    let quarantined = runtime.executor().encoder.quarantined_requests();
    let held_charge = runtime.executor().encoder.quarantined_charge();
    let expected_charge = if quarantined == 0 { 0 } else { envelope };
    assert_eq!(held_charge, expected_charge);
    assert_eq!(
        pool.granted(),
        expected_charge,
        "storage and the charge covering it are never separated"
    );

    let completion =
        EncoderCompletion::from_completed(runtime.pop_completed().expect("cancellation entry"));
    assert!(
        matches!(completion, EncoderCompletion::Cancelled { .. }),
        "the cancellation is delivered through the ordinary terminal queue"
    );

    // Whatever the drain did, the charge must not outlive the storage.
    let encoder = &mut runtime.executor_mut().encoder;
    assert!(encoder.drain_retirement(&mut pool, false).is_empty());
    assert_eq!(encoder.quarantined_requests(), quarantined);
    encoder.drain_retirement(&mut pool, true);
    assert_eq!(runtime.executor().encoder.quarantined_requests(), 0);
    assert_eq!(pool.granted(), 0);
}

#[test]
fn a_lagging_consumer_holds_its_charge_while_a_peer_still_progresses() {
    let envelope = encoder().encoder.request_bytes(4).expect("envelope");
    // Room for one result per runtime, so the lagging consumer is what holds the
    // peer back rather than the pool being unable to run anything.
    let mut pool = fresh_pool(2 * envelope);
    let mut ids = RequestIds::new();
    let mut lagging = BatchRuntime::new(encoder(), config()).expect("lagging runtime");
    let mut peer = BatchRuntime::new(encoder(), config()).expect("peer runtime");
    let request = || EncoderRequest::single_segment(vec![4, 1, 9, 3]);

    lagging
        .submit(&mut ids, &pool, request())
        .expect("lagging request");
    peer.submit(&mut ids, &pool, request()).expect("peer request");
    assert_eq!(
        lagging.step(&mut pool).expect("lagging step"),
        StepOutcome::Executed { results: 1 }
    );
    assert_eq!(
        peer.step(&mut pool).expect("peer step"),
        StepOutcome::Executed { results: 1 }
    );
    assert_eq!(pool.granted(), 2 * envelope);

    // The lagging runtime never awaits its result or releases it, so the pool is
    // fully committed and a third request cannot start anywhere.
    lagging
        .submit(&mut ids, &pool, request())
        .expect("lagging request");
    assert_eq!(
        lagging.step(&mut pool).expect("blocked step"),
        StepOutcome::Blocked(BlockReason::Pool {
            requested: envelope,
            available: 0
        })
    );
    assert_eq!(pool.available(), 0);

    // Consuming the peer's result admits exactly one further request: the lagging
    // consumer keeps its own charge, and progress does not require its cooperation.
    let entry = peer.pop_completed().expect("peer entry");
    entry.into_outcome(&mut pool);
    assert_eq!(pool.granted(), envelope);
    peer.submit(&mut ids, &pool, request()).expect("peer request");
    assert_eq!(
        peer.step(&mut pool).expect("peer step after consuming"),
        StepOutcome::Executed { results: 1 }
    );
    assert_eq!(pool.granted(), 2 * envelope);

    // The lagging consumer's result is still intact and still charged: nothing
    // released it while it waited.
    let late = result(EncoderCompletion::from_completed(
        lagging.pop_completed().expect("lagging entry"),
    ));
    give_up(&mut pool, late);
    assert_eq!(
        pool.available(),
        envelope,
        "consuming the lagging result releases exactly its own charge"
    );
}

#[test]
fn a_defect_behind_the_head_is_rejected_once_it_is_the_head() {
    let mut device = encoder();
    device.encoder = device.encoder.with_max_batch_items(4);
    let mut pool = fresh_pool(1 << 24);
    let mut ids = RequestIds::new();
    let mut runtime = BatchRuntime::new(device, config()).expect("runtime");
    runtime
        .submit(&mut ids, &pool, EncoderRequest::single_segment(vec![0, 1]))
        .expect("first request");
    runtime
        .submit(
            &mut ids,
            &pool,
            EncoderRequest::single_segment(vec![1; 17]),
        )
        .expect("second request");
    assert_eq!(
        runtime.step(&mut pool).expect("first batch"),
        StepOutcome::Executed { results: 1 }
    );
    assert_eq!(runtime.queued(), 1);
    assert!(runtime.pop_completed().is_some());
    assert!(runtime.pop_completed().is_none());
    assert!(matches!(
        runtime.step(&mut pool).expect("second batch"),
        StepOutcome::Rejected { .. }
    ));
    assert_eq!(runtime.queued(), 0);
}

#[test]
fn submission_reports_real_completion_and_geometry() {
    let device = encoder();
    let request = EncoderRequest::single_segment(vec![4, 1, 9, 3]);
    let bytes = device.encoder.request_bytes(4).expect("geometry");
    assert!(bytes > 0);
    let plan = device.encoder.plan(&request).expect("plan");
    let submission = EncoderSubmission::new(plan.shape, plan.lengths, plan.steps);
    assert_eq!(submission.device_bytes(), bytes);
    assert_eq!(plan.lengths.hidden, 4 * 12);
    assert_eq!(plan.lengths.pooled, 12);
    assert_eq!(submission.buffers().len(), 3 + 2 * 12 + 3);
}

#[test]
fn invalid_requests_are_refused_without_touching_the_device() {
    let mut device = encoder();
    let too_long = EncoderRequest::single_segment(vec![1; 17]);
    assert!(device.enqueue(&too_long).is_err());
    let unknown_token = EncoderRequest::single_segment(vec![99]);
    assert!(device.enqueue(&unknown_token).is_err());
    let mismatched = EncoderRequest {
        token_ids: vec![1, 2],
        token_type_ids: vec![0],
        attention_mask: vec![1, 1],
    };
    assert!(device.enqueue(&mismatched).is_err());
    assert_eq!(device.enqueued, 0);
    // The encoder remains usable after a refused request.
    assert!(device
        .enqueue(&EncoderRequest::single_segment(vec![5]))
        .is_ok());
}

#[test]
fn failed_enqueues_keep_storage_and_charge_together() {
    for (fail_at, fail_with_storage, kept) in
        [(0, false, 0), (0, true, 1), (1, false, 1), (1, true, 2)]
    {
        let mut device = encoder();
        device.fail_at = Some(fail_at);
        device.fail_with_storage = fail_with_storage;
        let envelope = device.encoder.request_bytes(4).expect("envelope");
        let mut pool = fresh_pool(4 * envelope);
        let mut ids = RequestIds::new();
        let mut runtime = BatchRuntime::new(device, config()).expect("runtime");
        for _ in 0..2 {
            runtime
                .submit(
                    &mut ids,
                    &pool,
                    EncoderRequest::single_segment(vec![4, 1, 9, 3]),
                )
                .expect("request");
        }
        assert!(runtime.step(&mut pool).is_err());
        let encoder = &mut runtime.executor_mut().encoder;
        assert_eq!(encoder.quarantined_requests(), kept);
        assert_eq!(encoder.quarantined_charge(), kept as u64 * envelope);
        assert_eq!(pool.granted(), kept as u64 * envelope);
        let storage = encoder.drain_retirement(&mut pool, true);
        assert_eq!(storage.len(), kept);
        assert_eq!(pool.granted(), 0);
    }
}

#[test]
fn settling_a_failure_tells_refusals_from_uncertain_work() {
    let mut pool = fresh_pool(100);
    let mut encoder: CudaBertEncoder<(), u8> =
        CudaBertEncoder::from_host(model(), &weights(), ()).expect("encoder");
    let lease = pool.reserve(10).expect("lease");
    let unreached = pool.reserve(20).expect("lease");
    let refused = encoder.settle_failure(
        &mut pool,
        Vec::new(),
        EnqueueFailure {
            error: EncoderError::Kernels("none".to_owned()),
            storage: None,
        },
        lease,
        vec![unreached],
    );
    assert!(matches!(refused, EnqueueError::Refused(_)));
    assert_eq!(pool.granted(), 0);
    let lease = pool.reserve(10).expect("lease");
    let uncertain = encoder.settle_failure(
        &mut pool,
        Vec::new(),
        EnqueueFailure {
            error: EncoderError::Kernels("some".to_owned()),
            storage: Some(7),
        },
        lease,
        Vec::new(),
    );
    assert!(matches!(uncertain, EnqueueError::Uncertain(_)));
    assert_eq!(pool.granted(), 10);
    assert_eq!(encoder.quarantined_charge(), 10);
    assert_eq!(encoder.drain_retirement(&mut pool, true), vec![7]);
    assert_eq!(pool.granted(), 0);
}

#[test]
fn preparation_refuses_mismatched_parameters() {
    let host = weights();
    assert_eq!(check_host(&model(), &host), Ok(()));
    let mut headless = model();
    headless.num_attention_heads = 5;
    assert_eq!(
        check_host(&headless, &host),
        Err(EncoderError::Config(ConfigError::IndivisibleHeads {
            hidden_size: 12,
            heads: 5
        }))
    );
    let mut longer = model();
    longer.max_position_embeddings = 17;
    assert_eq!(
        check_host(&longer, &host),
        Err(EncoderError::Weights(WeightError::Length {
            parameter: "embeddings.position_embeddings.weight".to_owned(),
            expected: 204,
            found: 192
        }))
    );
    let encoder: CudaBertEncoder<u8, ()> =
        CudaBertEncoder::from_host(model(), &host, 9).expect("encoder");
    assert_eq!(*encoder.prepared(), 9);
    assert_eq!(encoder.max_batch_items(), 16);
    assert_eq!(
        encoder.request_bytes(17),
        Err(EncoderError::InvalidRequest(
            EncoderConstraint::SequenceTooLong {
                sequence: 17,
                max_position_embeddings: 16
            }
        ))
    );
    assert_eq!(
        encoder.retained_bytes(&EncoderRequest::single_segment(Vec::new())),
        0
    );
}

#[test]
fn the_forward_pass_applies_its_layers_in_order() {
    let shape = shape(&model(), 4).expect("shape");
    let steps = forward_pass(shape, 1);
    assert_eq!(steps.len(), 18);
    assert_eq!(
        steps[0],
        EncoderStep::EmbeddingSum {
            output: Buffer::Hidden
        }
    );
    assert_eq!(
        steps[2],
        EncoderStep::Swap {
            first: Buffer::Hidden,
            second: Buffer::Query
        }
    );
    assert_eq!(
        steps[7],
        EncoderStep::Project {
            dense: DenseParameters::AttentionOutput { layer: 0 },
            input: Buffer::Context,
            rows: 4,
            output: Buffer::Projection
        }
    );
    assert_eq!(
        steps[14],
        EncoderStep::LayerNorm {
            norm: NormParameters::Output { layer: 0 },
            input: Buffer::Projection,
            output: Buffer::Hidden
        }
    );
    assert_eq!(
        steps[17],
        EncoderStep::Tanh {
            target: Buffer::Pooled
        }
    );
    let lengths = BufferLengths::of_shape(shape);
    assert_eq!(lengths.device_bytes(), shape.device_bytes());
}

#[test]
fn projections_name_the_dimension_they_cannot_express() {
    let large = i32::MAX as usize + 1;
    assert_eq!(
        projection_dimensions(3, 4, 5),
        Ok(GemmDimensions {
            m: 3,
            n: 4,
            k: 5,
            lda: 5,
            ldb: 5,
            ldc: 3
        })
    );
    assert_eq!(projection_dimensions(large, large, 5), Err("width"));
    assert_eq!(projection_dimensions(3, large, large), Err("rows"));
    assert_eq!(projection_dimensions(3, 4, large), Err("inner"));
}
