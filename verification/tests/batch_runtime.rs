//! The batching runtime with a host encoder that owns no device storage.

use std::convert::Infallible;

use ribn::batch::executor::{
    BatchConfig, BatchExecutor, BatchSelection, BlockReason, EnqueueError, Job, JobOutput,
    Rejection, RequestIds, RuntimeError, StepOutcome, Terminal,
};
use ribn::batch::runtime::BatchRuntime;
use ribn::foundation::parameter::ParameterVersion;
use ribn::foundation::pool::{BytePool, PoolLease};
use ribn::foundation::readiness::SourceIds;

fn fresh_pool(capacity: u64) -> BytePool {
    BytePool::new(SourceIds::new().take().expect("source"), capacity)
}

#[derive(Debug, Eq, PartialEq)]
enum Constraint {
    WorkspaceBusy,
    ExceedsTokenBudget { tokens: usize },
}

struct Encoder {
    version: ParameterVersion,
    batches: Vec<Vec<usize>>,
    token_budget: Option<usize>,
    busy: bool,
    bytes_per_token: u64,
    over_select: bool,
    /// Return fewer results than the runtime submitted.
    short_return: bool,
    /// Outputs handed back by the runtime after a malformed completion.
    retired_outputs: usize,
    max_batch_items: usize,
}

impl Encoder {
    fn new() -> Self {
        Self {
            version: ParameterVersion::new(7),
            batches: Vec::new(),
            token_budget: None,
            busy: false,
            bytes_per_token: 1,
            over_select: false,
            short_return: false,
            retired_outputs: 0,
            max_batch_items: 2,
        }
    }
}

impl BatchExecutor for Encoder {
    type Input = Vec<u32>;
    type Output = u32;
    type Error = Infallible;
    type Constraint = Constraint;

    fn parameter_version(&self) -> ParameterVersion {
        self.version
    }

    fn max_batch_items(&self) -> usize {
        self.max_batch_items
    }

    fn select_batch(&self, candidates: &[&Self::Input]) -> BatchSelection<Self::Constraint> {
        let head = candidates
            .first()
            .expect("the runtime never selects from an empty candidate set");
        if self.over_select {
            return BatchSelection::Ready {
                items: candidates.len() + 1,
            };
        }
        if self.token_budget.is_some_and(|budget| head.len() > budget) {
            return BatchSelection::Rejected(Constraint::ExceedsTokenBudget {
                tokens: head.len(),
            });
        }
        if self.busy {
            return BatchSelection::Blocked(Constraint::WorkspaceBusy);
        }
        let mut items = 0_usize;
        let mut tokens = 0_usize;
        for candidate in candidates {
            let next = tokens.saturating_add(candidate.len());
            if items > 0 && self.token_budget.is_some_and(|budget| next > budget) {
                break;
            }
            tokens = next;
            items += 1;
        }
        BatchSelection::Ready { items }
    }

    fn retained_bytes(&self, input: &Self::Input) -> u64 {
        u64::try_from(input.len())
            .unwrap_or(u64::MAX)
            .saturating_mul(self.bytes_per_token)
    }

    fn execute(
        &mut self,
        pool: &mut BytePool,
        batch: Vec<Job<Self::Input>>,
    ) -> Result<Vec<JobOutput<Self::Output>>, EnqueueError<Self::Error>> {
        self.batches
            .push(batch.iter().map(|job| job.input().len()).collect());
        let mut outputs = batch
            .into_iter()
            .map(|job| {
                let (request, input, lease) = job.into_parts();
                JobOutput::new(request, input.into_iter().sum(), lease)
            })
            .collect::<Vec<_>>();
        if self.short_return {
            // A contract violation: one submitted request gets no result.
            if let Some(output) = outputs.pop() {
                pool.release(output.into_parts().2);
            }
        }
        Ok(outputs)
    }

    fn retire(&mut self, _pool: &mut BytePool, outputs: Vec<JobOutput<Self::Output>>) {
        // This fixture's output owns no storage; the hand-back is what the test observes.
        self.retired_outputs += outputs.len();
    }
}

fn pool() -> BytePool {
    fresh_pool(1 << 20)
}

/// An executor that fails after the runtime has reserved for it.
///
/// Its output owns no storage, so the reservations it takes back are the only resource at
/// stake: the test watches when they return to the pool.
struct FailingEncoder {
    /// Whether the failure happened after device-visible work.
    after_device: bool,
    /// Reservations the executor still owns after its failure.
    quarantined: Vec<PoolLease>,
    /// Outputs handed back by the runtime.
    retired_outputs: usize,
}

impl FailingEncoder {
    fn new(after_device: bool) -> Self {
        Self {
            after_device,
            quarantined: Vec::new(),
            retired_outputs: 0,
        }
    }

    fn release_quarantined(&mut self, pool: &mut BytePool) {
        for lease in self.quarantined.drain(..) {
            pool.release(lease);
        }
    }
}

impl BatchExecutor for FailingEncoder {
    type Input = Vec<u32>;
    type Output = u32;
    type Error = Constraint;
    type Constraint = Constraint;

    fn parameter_version(&self) -> ParameterVersion {
        ParameterVersion::new(1)
    }

    fn max_batch_items(&self) -> usize {
        1
    }

    fn select_batch(&self, _candidates: &[&Self::Input]) -> BatchSelection<Self::Constraint> {
        BatchSelection::Ready { items: 1 }
    }

    fn retained_bytes(&self, _input: &Self::Input) -> u64 {
        1
    }

    fn execute(
        &mut self,
        pool: &mut BytePool,
        batch: Vec<Job<Self::Input>>,
    ) -> Result<Vec<JobOutput<Self::Output>>, EnqueueError<Self::Error>> {
        if self.after_device {
            // The reservation stays here: the device may still hold storage this failure
            // created.
            self.quarantined
                .extend(batch.into_iter().map(|job| job.into_parts().2));
            Err(EnqueueError::Uncertain(Constraint::WorkspaceBusy))
        } else {
            // Nothing reached the device, so every reservation is released.
            for job in batch {
                pool.release(job.into_parts().2);
            }
            Err(EnqueueError::Refused(Constraint::WorkspaceBusy))
        }
    }

    fn retire(&mut self, _pool: &mut BytePool, outputs: Vec<JobOutput<Self::Output>>) {
        self.retired_outputs += outputs.len();
        self.quarantined
            .extend(outputs.into_iter().map(|output| output.into_parts().2));
    }
}

fn config() -> BatchConfig {
    BatchConfig {
        max_waiting_requests: 8,
        max_retained_results: 4,
    }
}

fn runtime() -> BatchRuntime<Encoder> {
    BatchRuntime::new(Encoder::new(), config()).expect("runtime")
}

#[test]
fn encoder_batches_without_token_or_sequence_semantics() {
    let mut ids = RequestIds::new();
    let mut pool = pool();
    let mut runtime = runtime();
    let first = runtime.submit(&mut ids, &pool, vec![1, 2]).expect("first");
    let second = runtime
        .submit(&mut ids, &pool, vec![3, 4, 5])
        .expect("second");
    let third = runtime.submit(&mut ids, &pool, vec![6, 7]).expect("third");
    assert_eq!(
        runtime.step(&mut pool).expect("step"),
        StepOutcome::Executed { results: 2 }
    );
    assert_eq!(runtime.queued(), 1);
    assert_eq!(runtime.executor().batches, vec![vec![2, 3]]);
    let first_output = runtime.pop_completed().expect("first output");
    let second_output = runtime.pop_completed().expect("second output");
    assert_eq!(first_output.request(), first);
    assert_eq!(*first_output.output().expect("first output"), 3);
    assert_eq!(first_output.parameter_version(), ParameterVersion::new(7));
    assert_eq!(second_output.request(), second);
    assert_eq!(*second_output.output().expect("second output"), 12);
    assert_eq!(
        runtime.step(&mut pool).expect("second step"),
        StepOutcome::Executed { results: 1 }
    );
    assert_eq!(
        runtime.pop_completed().expect("third output").request(),
        third
    );
}

#[test]
fn queued_work_is_pinned_to_a_parameter_version() {
    let mut ids = RequestIds::new();
    let mut pool = pool();
    let mut runtime = runtime();
    runtime.submit(&mut ids, &pool, vec![1]).expect("request");
    runtime.executor_mut().version = ParameterVersion::new(8);
    assert!(matches!(
        runtime.step(&mut pool),
        Err(RuntimeError::ParameterVersionChanged {
            queued,
            current
        }) if queued == ParameterVersion::new(7) && current == ParameterVersion::new(8)
    ));
}

#[test]
fn retained_results_are_bounded_when_the_caller_stops_draining() {
    let mut ids = RequestIds::new();
    let mut pool = pool();
    let mut runtime = BatchRuntime::new(
        Encoder::new(),
        BatchConfig {
            max_retained_results: 2,
            ..config()
        },
    )
    .expect("runtime");
    for index in 0..4_u32 {
        runtime
            .submit(&mut ids, &pool, vec![index])
            .expect("request");
    }
    assert_eq!(
        runtime.step(&mut pool).expect("first step"),
        StepOutcome::Executed { results: 2 }
    );
    assert_eq!(runtime.retained_results(), 2);
    assert_eq!(runtime.queued(), 2);

    assert_eq!(
        runtime.step(&mut pool).expect("blocked step"),
        StepOutcome::Blocked(BlockReason::RetainedResults)
    );
    assert_eq!(runtime.queued(), 2, "blocked work stays queued");
    assert_eq!(
        runtime.executor().batches.len(),
        1,
        "blocked admission must not execute"
    );

    let entry = runtime.pop_completed().expect("release one result");
    let _ = entry.into_outcome(&mut pool);
    assert_eq!(runtime.retained_results(), 1);
    assert_eq!(
        runtime.step(&mut pool).expect("partially drained step"),
        StepOutcome::Executed { results: 1 },
        "the selected batch shrinks to the capacity that is free"
    );
    assert_eq!(runtime.retained_results(), 2);
    assert_eq!(runtime.queued(), 1);
    assert_eq!(
        runtime.step(&mut pool).expect("fully retained step"),
        StepOutcome::Blocked(BlockReason::RetainedResults)
    );
    let entry = runtime.pop_completed().expect("release one result");
    let _ = entry.into_outcome(&mut pool);
    let entry = runtime.pop_completed().expect("release the other result");
    let _ = entry.into_outcome(&mut pool);
    assert_eq!(runtime.retained_results(), 0);
    assert_eq!(
        runtime.step(&mut pool).expect("step after release"),
        StepOutcome::Executed { results: 1 }
    );
}

#[test]
fn retained_output_bytes_are_reserved_before_execution() {
    let mut ids = RequestIds::new();
    let mut executor = Encoder::new();
    executor.bytes_per_token = 1 << 19;
    let mut pool = fresh_pool(1 << 19);
    let mut runtime = BatchRuntime::new(executor, config()).expect("runtime");
    runtime
        .submit(&mut ids, &pool, vec![1])
        .expect("first request");
    runtime
        .submit(&mut ids, &pool, vec![2])
        .expect("second request");

    assert_eq!(
        runtime.step(&mut pool).expect("first step"),
        StepOutcome::Executed { results: 1 },
        "the executor wanted both requests, but only one reservation fits"
    );
    assert_eq!(runtime.retained_output_bytes(), 1 << 19);
    assert_eq!(pool.granted(), 1 << 19);
    assert_eq!(
        runtime.step(&mut pool).expect("pool-blocked step"),
        StepOutcome::Blocked(BlockReason::Pool {
            requested: 1 << 19,
            available: 0
        })
    );
    assert_eq!(runtime.executor().batches.len(), 1);

    // Consuming the entry hands the charge over rather than releasing it: the caller's
    // storage still occupies those bytes.
    let (outcome, lease) = runtime
        .pop_completed()
        .expect("released entry")
        .into_parts();
    assert!(matches!(outcome, Terminal::Output(_)));
    let lease = lease.expect("outputs carry a lease");
    assert_eq!(lease.bytes(), 1 << 19);
    assert_eq!(pool.granted(), 1 << 19);
    assert_eq!(runtime.retained_output_bytes(), 0);
    assert_eq!(
        runtime
            .step(&mut pool)
            .expect("step while the caller holds the charge"),
        StepOutcome::Blocked(BlockReason::Pool {
            requested: 1 << 19,
            available: 0
        }),
        "a popped result keeps its bytes reserved until its owner frees them"
    );
    pool.release(lease);
    assert_eq!(pool.granted(), 0);
    assert_eq!(
        runtime.step(&mut pool).expect("step after release"),
        StepOutcome::Executed { results: 1 }
    );
}

#[test]
fn one_pool_binds_every_runtime_drawing_on_it() {
    let mut ids = RequestIds::new();
    let mut pool = fresh_pool(1 << 19);
    let mut first_executor = Encoder::new();
    first_executor.bytes_per_token = 1 << 19;
    let mut second_executor = Encoder::new();
    second_executor.bytes_per_token = 1 << 19;
    let mut first = BatchRuntime::new(first_executor, config()).expect("first runtime");
    let mut second = BatchRuntime::new(second_executor, config()).expect("second runtime");
    first
        .submit(&mut ids, &pool, vec![1])
        .expect("first request");
    second
        .submit(&mut ids, &pool, vec![1])
        .expect("second request");
    assert_eq!(
        first.step(&mut pool).expect("first step"),
        StepOutcome::Executed { results: 1 }
    );
    assert_eq!(
        second.step(&mut pool).expect("sibling step"),
        StepOutcome::Blocked(BlockReason::Pool {
            requested: 1 << 19,
            available: 0
        }),
        "a private per-runtime budget would have admitted this work"
    );
    let wait = pool.capacity_wait();
    let entry = first.pop_completed().expect("first entry");
    let _ = entry.into_outcome(&mut pool);
    assert!(pool.changed(&wait), "release publishes capacity readiness");
    assert_eq!(
        second.step(&mut pool).expect("sibling step after release"),
        StepOutcome::Executed { results: 1 }
    );
}

#[test]
fn a_head_larger_than_the_pool_is_rejected_not_waited_out() {
    let mut ids = RequestIds::new();
    let mut executor = Encoder::new();
    executor.bytes_per_token = 1024;
    let mut pool = fresh_pool(1024);
    let mut runtime = BatchRuntime::new(executor, config()).expect("runtime");
    let oversized = runtime
        .submit(&mut ids, &pool, vec![0; 2])
        .expect("oversized request");
    let healthy = runtime
        .submit(&mut ids, &pool, vec![0; 1])
        .expect("healthy request");
    assert_eq!(
        runtime.step(&mut pool).expect("rejecting step"),
        StepOutcome::Rejected { request: oversized }
    );
    assert_eq!(
        runtime.pop_completed().expect("rejection").outcome(),
        &Terminal::Rejected(Rejection::RetainedOutputTooLarge {
            requested: 2048,
            capacity: 1024
        })
    );
    assert_eq!(
        runtime.step(&mut pool).expect("healthy peer still runs"),
        StepOutcome::Executed { results: 1 }
    );
    assert_eq!(
        runtime.pop_completed().expect("healthy output").request(),
        healthy
    );
}

#[test]
fn a_closed_pool_refuses_new_work_and_a_failed_submission_keeps_its_charge() {
    let mut ids = RequestIds::new();
    let mut pool = fresh_pool(1 << 19);
    let mut runtime = BatchRuntime::new(Encoder::new(), config()).expect("runtime");
    pool.close();
    assert!(matches!(
        runtime.submit(&mut ids, &pool, vec![1]),
        Err(RuntimeError::PoolClosed)
    ));
    drop(runtime);

    // A submission that fails after reaching the device keeps its reservation with the
    // executor: releasing it here would free pool bytes covering storage the device may
    // still read.
    let mut pool = fresh_pool(1 << 19);
    let mut runtime = BatchRuntime::new(FailingEncoder::new(true), config()).expect("runtime");
    runtime.submit(&mut ids, &pool, vec![1]).expect("request");
    let error = runtime.step(&mut pool).expect_err("executor failure");
    assert!(
        matches!(error, RuntimeError::Uncertain { .. }),
        "a device-visible failure is uncertain, got {error:?}"
    );
    assert_eq!(pool.granted(), 1, "the executor keeps the charge");
    assert_eq!(runtime.executor().quarantined.len(), 1);

    // Only a proven drain releases it, and no error ever carried the lease back.
    runtime.executor_mut().release_quarantined(&mut pool);
    assert_eq!(pool.granted(), 0);

    // A refusal before device access releases every reservation instead.
    let mut pool = fresh_pool(1 << 19);
    let mut runtime = BatchRuntime::new(FailingEncoder::new(false), config()).expect("runtime");
    runtime.submit(&mut ids, &pool, vec![1]).expect("request");
    assert!(matches!(
        runtime.step(&mut pool),
        Err(RuntimeError::Executor { .. })
    ));
    assert_eq!(pool.granted(), 0);
}

#[test]
fn blocked_selection_is_not_a_runtime_failure() {
    let mut ids = RequestIds::new();
    let mut pool = pool();
    let mut runtime = runtime();
    runtime
        .submit(&mut ids, &pool, vec![1])
        .expect("first request");
    runtime
        .submit(&mut ids, &pool, vec![2])
        .expect("second request");
    runtime.executor_mut().busy = true;

    assert_eq!(
        runtime.step(&mut pool).expect("blocked step"),
        StepOutcome::Blocked(BlockReason::Executor(Constraint::WorkspaceBusy))
    );
    assert_eq!(runtime.queued(), 2);
    assert!(runtime.executor().batches.is_empty());

    runtime.executor_mut().busy = false;
    assert_eq!(
        runtime.step(&mut pool).expect("step after wakeup"),
        StepOutcome::Executed { results: 2 }
    );
}

#[test]
fn oversized_head_is_rejected_without_blocking_later_work() {
    let mut ids = RequestIds::new();
    let mut pool = pool();
    let mut executor = Encoder::new();
    executor.token_budget = Some(2);
    let mut runtime = BatchRuntime::new(executor, config()).expect("runtime");
    let oversized = runtime
        .submit(&mut ids, &pool, vec![1, 2, 3])
        .expect("oversized request");
    let first = runtime
        .submit(&mut ids, &pool, vec![4])
        .expect("first request");
    let second = runtime
        .submit(&mut ids, &pool, vec![5])
        .expect("second request");

    assert_eq!(
        runtime.step(&mut pool).expect("rejecting step"),
        StepOutcome::Rejected { request: oversized }
    );
    assert_eq!(runtime.queued(), 2);
    assert!(runtime.executor().batches.is_empty());

    let entry = runtime.pop_completed().expect("rejection entry");
    assert_eq!(entry.request(), oversized);
    assert_eq!(entry.retained_bytes(), 0);
    assert!(entry.lease().is_none());
    assert!(entry.allocation().is_none());
    assert!(matches!(
        entry.outcome(),
        Terminal::Rejected(Rejection::Executor(Constraint::ExceedsTokenBudget {
            tokens: 3
        }))
    ));

    assert_eq!(
        runtime.step(&mut pool).expect("later work still runs"),
        StepOutcome::Executed { results: 2 }
    );
    assert_eq!(
        runtime.pop_completed().expect("first output").request(),
        first
    );
    assert_eq!(
        runtime.pop_completed().expect("second output").request(),
        second
    );
}

#[test]
fn rejection_is_delivered_while_output_bytes_are_exhausted() {
    let mut ids = RequestIds::new();
    let mut pool = pool();
    let mut executor = Encoder::new();
    executor.token_budget = Some(2);
    executor.bytes_per_token = 1 << 19;
    let mut runtime = BatchRuntime::new(executor, config()).expect("runtime");
    runtime
        .submit(&mut ids, &pool, vec![1])
        .expect("fitting request");
    assert_eq!(
        runtime.step(&mut pool).expect("first step"),
        StepOutcome::Executed { results: 1 }
    );
    assert_eq!(runtime.retained_output_bytes(), 1 << 19);

    let oversized = runtime
        .submit(&mut ids, &pool, vec![1, 2, 3])
        .expect("oversized request");
    assert_eq!(
        runtime.step(&mut pool).expect("rejecting step"),
        StepOutcome::Rejected { request: oversized }
    );
    assert!(
        runtime
            .pop_completed()
            .expect("first entry")
            .output()
            .is_some(),
        "earlier completions are delivered first"
    );
    assert!(matches!(
        runtime.pop_completed().expect("rejection entry").outcome(),
        Terminal::Rejected(_)
    ));
}

#[test]
fn retained_rejections_count_toward_the_retained_bound() {
    // A rejection is a terminal entry the caller has not consumed, so it occupies the
    // retained-result budget exactly like an output.
    let mut ids = RequestIds::new();
    let mut pool = pool();
    let mut executor = Encoder::new();
    executor.token_budget = Some(2);
    let mut runtime = BatchRuntime::new(
        executor,
        BatchConfig {
            max_retained_results: 1,
            ..config()
        },
    )
    .expect("runtime");
    let oversized = runtime
        .submit(&mut ids, &pool, vec![1, 2, 3])
        .expect("oversized request");
    assert_eq!(
        runtime.step(&mut pool).expect("rejecting step"),
        StepOutcome::Rejected { request: oversized }
    );
    assert_eq!(runtime.retained_results(), 1);

    runtime
        .submit(&mut ids, &pool, vec![4])
        .expect("later request");
    assert!(
        matches!(
            runtime
                .step(&mut pool)
                .expect("step under a full retained budget"),
            StepOutcome::Blocked(BlockReason::RetainedResults)
        ),
        "an unconsumed rejection must block execution, not share the bound"
    );
    assert_eq!(runtime.retained_results(), 1);

    // Consuming the rejection releases the budget for the queued request.
    assert!(matches!(
        runtime.pop_completed().expect("rejection entry").outcome(),
        Terminal::Rejected(_)
    ));
    assert_eq!(
        runtime
            .step(&mut pool)
            .expect("step after consuming the rejection"),
        StepOutcome::Executed { results: 1 }
    );
    assert_eq!(runtime.retained_results(), 1);
}

#[test]
fn waiting_capacity_is_bounded_independently_of_retained_results() {
    let mut ids = RequestIds::new();
    let pool = pool();
    let mut runtime = BatchRuntime::new(
        Encoder::new(),
        BatchConfig {
            max_waiting_requests: 1,
            ..config()
        },
    )
    .expect("runtime");
    runtime
        .submit(&mut ids, &pool, vec![1])
        .expect("first request");
    assert!(matches!(
        runtime.submit(&mut ids, &pool, vec![2]),
        Err(RuntimeError::WaitingCapacityExhausted)
    ));
}

#[test]
fn malformed_selection_is_still_a_runtime_error() {
    let mut ids = RequestIds::new();
    let mut pool = pool();
    let mut runtime = runtime();
    runtime.submit(&mut ids, &pool, vec![1]).expect("request");
    runtime.executor_mut().over_select = true;
    assert!(matches!(
        runtime.step(&mut pool),
        Err(RuntimeError::MalformedBatchSelection {
            selected: 2,
            candidates: 1
        })
    ));
}

#[test]
fn a_short_completion_is_handed_back_to_the_executor() {
    let mut ids = RequestIds::new();
    let mut pool = pool();
    let mut runtime = runtime();
    runtime.executor_mut().short_return = true;
    runtime
        .submit(&mut ids, &pool, vec![1])
        .expect("first request");
    runtime
        .submit(&mut ids, &pool, vec![2])
        .expect("second request");
    assert!(matches!(
        runtime.step(&mut pool),
        Err(RuntimeError::MalformedCompletion { returned: 1, .. })
    ));
    assert_eq!(runtime.executor().retired_outputs, 1);
    assert_eq!(
        runtime.retained_results(),
        0,
        "nothing may be committed after a malformed completion"
    );
}

#[test]
fn zero_bounds_and_idle_executors_are_refused() {
    for config in [
        BatchConfig {
            max_waiting_requests: 0,
            max_retained_results: 1,
        },
        BatchConfig {
            max_waiting_requests: 1,
            max_retained_results: 0,
        },
    ] {
        assert!(matches!(
            BatchRuntime::new(Encoder::new(), config),
            Err(RuntimeError::InvalidConfig)
        ));
    }
    let mut executor = Encoder::new();
    executor.max_batch_items = 0;
    assert!(matches!(
        BatchRuntime::new(executor, config()),
        Err(RuntimeError::InvalidConfig)
    ));
    assert_eq!(
        BatchConfig::default(),
        BatchConfig {
            max_waiting_requests: 1024,
            max_retained_results: 1024
        }
    );
}

#[test]
fn requests_end_in_submission_order_across_rejections() {
    let mut ids = RequestIds::new();
    let mut pool = pool();
    let mut executor = Encoder::new();
    executor.token_budget = Some(2);
    let mut runtime = BatchRuntime::new(executor, config()).expect("runtime");
    let submitted: Vec<_> = [vec![1], vec![1, 2, 3], vec![2]]
        .into_iter()
        .map(|input| runtime.submit(&mut ids, &pool, input).expect("request"))
        .collect();
    assert_eq!(submitted[0].get(), 1);
    assert_eq!(
        runtime.step(&mut pool).expect("step"),
        StepOutcome::Executed { results: 1 }
    );
    assert_eq!(
        runtime.step(&mut pool).expect("step"),
        StepOutcome::Rejected {
            request: submitted[1]
        }
    );
    assert_eq!(
        runtime.step(&mut pool).expect("step"),
        StepOutcome::Executed { results: 1 }
    );
    assert_eq!(runtime.step(&mut pool).expect("step"), StepOutcome::Idle);
    let mut ended = Vec::new();
    while let Some(entry) = runtime.pop_completed() {
        ended.push(entry.request());
    }
    assert_eq!(ended, submitted);
}

#[test]
fn retained_bytes_stay_within_what_the_pool_has_granted() {
    let mut ids = RequestIds::new();
    let mut pool = pool();
    let mut runtime = runtime();
    let mut sibling = BatchRuntime::new(Encoder::new(), config()).expect("sibling");
    for _ in 0..2 {
        runtime
            .submit(&mut ids, &pool, vec![1, 2])
            .expect("request");
        sibling
            .submit(&mut ids, &pool, vec![3])
            .expect("sibling request");
    }
    assert_eq!(runtime.retained_output_bytes(), 0);
    runtime.step(&mut pool).expect("step");
    let own = runtime.retained_output_bytes();
    assert!(own > 0);
    assert_eq!(pool.granted(), own);
    sibling.step(&mut pool).expect("sibling step");
    assert_eq!(runtime.retained_output_bytes(), own); // not the sibling's
    assert_eq!(pool.granted(), own + sibling.retained_output_bytes());

    let granted = pool.granted();
    let entry = runtime.pop_completed().expect("entry");
    let charge = entry.retained_bytes();
    assert!(charge > 0);
    assert_eq!(runtime.retained_output_bytes(), own - charge);
    assert_eq!(pool.granted(), granted);
    assert!(matches!(entry.into_outcome(&mut pool), Terminal::Output(_)));
    assert_eq!(pool.granted(), granted - charge);
}
