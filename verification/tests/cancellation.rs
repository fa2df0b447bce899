//! Cancellation: intent recorded against a live request, delivered through the ordinary
//! terminal queue, and never a reason for the runtime to release storage or a charge on
//! its own.

use std::convert::Infallible;

use ribn::batch::executor::{
    BatchConfig, BatchExecutor, BatchSelection, BlockReason, CancelOutcome, EnqueueError, Job,
    JobOutput, RequestIds, StepOutcome,
};
use ribn::batch::runtime::BatchRuntime;
use ribn::foundation::parameter::ParameterVersion;
use ribn::foundation::pool::BytePool;
use ribn::foundation::readiness::SourceIds;

fn fresh_pool(capacity: u64) -> BytePool {
    BytePool::new(SourceIds::new().take().expect("source"), capacity)
}

const ENVELOPE: u64 = 1 << 14;

/// Stands in for the device storage a result holds: what matters here is that the runtime
/// never frees it or its charge, only the executor can.
struct DeviceResult;

/// An encoder whose results are retained until a proven drain, and which records what it
/// was actually asked to run.
struct CancellableEncoder {
    complete: bool,
    batches: Vec<Vec<usize>>,
    quarantined: Vec<JobOutput<DeviceResult>>,
}

impl CancellableEncoder {
    fn new() -> Self {
        Self {
            complete: false,
            batches: Vec::new(),
            quarantined: Vec::new(),
        }
    }

    fn complete_pending(&mut self) {
        self.complete = true;
    }

    fn drain(&mut self, pool: &mut BytePool) -> usize {
        if !self.complete {
            return 0;
        }
        let drained = self.quarantined.len();
        for output in self.quarantined.drain(..) {
            pool.release(output.into_parts().2);
        }
        drained
    }

    fn quarantined_charge(&self) -> u64 {
        self.quarantined
            .iter()
            .map(|output| output.lease().bytes())
            .sum()
    }
}

impl BatchExecutor for CancellableEncoder {
    type Input = usize;
    type Output = DeviceResult;
    type Error = Infallible;
    type Constraint = Infallible;

    fn parameter_version(&self) -> ParameterVersion {
        ParameterVersion::new(1)
    }

    fn max_batch_items(&self) -> usize {
        2
    }

    fn select_batch(&self, candidates: &[&Self::Input]) -> BatchSelection<Self::Constraint> {
        BatchSelection::Ready {
            items: candidates.len(),
        }
    }

    fn retained_bytes(&self, _input: &Self::Input) -> u64 {
        ENVELOPE
    }

    fn execute(
        &mut self,
        _pool: &mut BytePool,
        batch: Vec<Job<Self::Input>>,
    ) -> Result<Vec<JobOutput<Self::Output>>, EnqueueError<Self::Error>> {
        self.complete = false;
        self.batches
            .push(batch.iter().map(|job| *job.input()).collect());
        Ok(batch
            .into_iter()
            .map(|job| {
                let (request, _input, lease) = job.into_parts();
                JobOutput::new(request, DeviceResult, lease)
            })
            .collect())
    }

    fn retire(&mut self, _pool: &mut BytePool, outputs: Vec<JobOutput<Self::Output>>) {
        self.quarantined.extend(outputs);
    }
}

fn config() -> BatchConfig {
    BatchConfig {
        max_waiting_requests: 8,
        max_retained_results: 4,
    }
}

fn runtime() -> BatchRuntime<CancellableEncoder> {
    BatchRuntime::new(CancellableEncoder::new(), config()).expect("runtime")
}

#[test]
fn cancelling_a_waiting_request_reports_cancellation_without_reserving() {
    // A sibling holds the whole pool, so this request can only wait. Nothing is reserved
    // for waiting work, so abandoning it releases nothing.
    let mut ids = RequestIds::new();
    let mut pool = fresh_pool(ENVELOPE);
    let held = pool.reserve(ENVELOPE).expect("sibling lease");
    let mut runtime = runtime();
    let request = runtime.submit(&mut ids, &pool, 1).expect("request");
    assert!(matches!(
        runtime.step(&mut pool).expect("blocked step"),
        StepOutcome::Blocked(BlockReason::Pool { .. })
    ));

    assert_eq!(runtime.cancel(&mut pool, request), CancelOutcome::Queued);
    assert_eq!(
        pool.granted(),
        ENVELOPE,
        "the sibling still holds its charge"
    );
    assert_eq!(
        runtime.step(&mut pool).expect("cancelling step"),
        StepOutcome::Cancelled { request }
    );
    assert_eq!(runtime.queued(), 0);
    let entry = runtime.pop_completed().expect("cancellation entry");
    assert_eq!(entry.request(), request);
    assert!(entry.is_cancelled());
    assert_eq!(entry.retained_bytes(), 0);
    assert!(runtime.executor().batches.is_empty());
    pool.release(held);
    assert_eq!(
        runtime.step(&mut pool).expect("idle step"),
        StepOutcome::Idle,
        "a cancelled request is never executed"
    );
}

#[test]
fn cancelling_a_retained_result_hands_storage_and_charge_to_the_executor() {
    let mut ids = RequestIds::new();
    let mut pool = fresh_pool(2 * ENVELOPE);
    let mut runtime = runtime();
    let request = runtime.submit(&mut ids, &pool, 1).expect("request");
    assert_eq!(
        runtime.step(&mut pool).expect("step"),
        StepOutcome::Executed { results: 1 }
    );
    assert_eq!(pool.granted(), ENVELOPE);

    assert_eq!(runtime.cancel(&mut pool, request), CancelOutcome::Discarded);
    // The runtime never releases device storage or its charge itself.
    assert_eq!(pool.granted(), ENVELOPE);
    assert_eq!(runtime.executor().quarantined_charge(), ENVELOPE);
    assert_eq!(runtime.retained_results(), 1);
    let entry = runtime.pop_completed().expect("cancellation entry");
    assert!(entry.is_cancelled());
    assert_eq!(entry.retained_bytes(), 0);
    assert!(entry.output().is_none());

    // Completion still permits the release, so the charge is not lost.
    assert_eq!(runtime.executor_mut().drain(&mut pool), 0);
    assert_eq!(pool.granted(), ENVELOPE);
    runtime.executor_mut().complete_pending();
    assert_eq!(runtime.executor_mut().drain(&mut pool), 1);
    assert_eq!(pool.granted(), 0);
}

#[test]
fn cancellation_is_deliverable_while_the_terminal_bound_is_full() {
    let mut ids = RequestIds::new();
    let mut pool = fresh_pool(8 * ENVELOPE);
    let mut runtime = BatchRuntime::new(
        CancellableEncoder::new(),
        BatchConfig {
            max_waiting_requests: 8,
            max_retained_results: 1,
        },
    )
    .expect("runtime");
    let first = runtime.submit(&mut ids, &pool, 1).expect("first request");
    let second = runtime.submit(&mut ids, &pool, 2).expect("second request");
    assert_eq!(
        runtime.step(&mut pool).expect("step"),
        StepOutcome::Executed { results: 1 }
    );
    assert_eq!(runtime.retained_results(), 1);

    // The intent is recorded even though no terminal slot is free.
    assert_eq!(runtime.cancel(&mut pool, second), CancelOutcome::Queued);
    assert_eq!(
        runtime.step(&mut pool).expect("blocked step"),
        StepOutcome::Blocked(BlockReason::RetainedResults)
    );
    assert_eq!(runtime.queued(), 1, "the cancelled request keeps its place");
    assert_eq!(runtime.executor().batches.len(), 1);

    assert_eq!(
        runtime.pop_completed().expect("first entry").request(),
        first
    );
    assert_eq!(
        runtime
            .step(&mut pool)
            .expect("step after consuming the entry"),
        StepOutcome::Cancelled { request: second }
    );
    assert!(runtime
        .pop_completed()
        .expect("cancellation")
        .is_cancelled());
}

#[test]
fn a_cancelled_request_stops_its_accepted_range_and_never_runs() {
    let mut ids = RequestIds::new();
    let mut pool = fresh_pool(8 * ENVELOPE);
    let mut runtime = runtime();
    let first = runtime.submit(&mut ids, &pool, 1).expect("first request");
    let cancelled = runtime.submit(&mut ids, &pool, 2).expect("second request");
    let third = runtime.submit(&mut ids, &pool, 3).expect("third request");

    // `max_batch_items` is two, so without the cancellation the first step would run the
    // first two requests as one batch.
    assert_eq!(runtime.cancel(&mut pool, cancelled), CancelOutcome::Queued);
    assert_eq!(
        runtime.step(&mut pool).expect("step"),
        StepOutcome::Executed { results: 1 },
        "the accepted range stops before a cancelled request"
    );
    assert_eq!(runtime.executor().batches, vec![vec![1]]);

    assert_eq!(
        runtime.step(&mut pool).expect("cancelling step"),
        StepOutcome::Cancelled { request: cancelled }
    );
    assert_eq!(
        runtime.step(&mut pool).expect("step"),
        StepOutcome::Executed { results: 1 }
    );
    assert_eq!(runtime.executor().batches, vec![vec![1], vec![3]]);
    let mut requests = Vec::new();
    while let Some(entry) = runtime.pop_completed() {
        requests.push((entry.request(), entry.is_cancelled()));
    }
    assert_eq!(
        requests,
        vec![(first, false), (cancelled, true), (third, false)],
        "every request still reports exactly one terminal outcome, in order"
    );
}

#[test]
fn cancelling_an_unknown_or_consumed_request_reports_unknown() {
    // The runtime issues request identity, so a consumed request is the only id a test can
    // name without fabricating one; an id that was never issued reports the same outcome
    // because it matches no live request.
    let mut ids = RequestIds::new();
    let mut pool = fresh_pool(2 * ENVELOPE);
    let mut runtime = runtime();
    let request = runtime.submit(&mut ids, &pool, 1).expect("request");
    assert_eq!(
        runtime.step(&mut pool).expect("step"),
        StepOutcome::Executed { results: 1 }
    );
    let entry = runtime.pop_completed().expect("entry");
    let _ = entry.into_outcome(&mut pool);
    assert_eq!(runtime.cancel(&mut pool, request), CancelOutcome::Unknown);
    assert_eq!(runtime.cancel(&mut pool, request), CancelOutcome::Unknown);
}

#[test]
fn a_request_that_was_cancelled_earlier_is_no_longer_live() {
    let mut ids = RequestIds::new();
    let mut pool = fresh_pool(2 * ENVELOPE);
    let mut runtime = runtime();
    let request = runtime.submit(&mut ids, &pool, 1).expect("request");
    assert_eq!(runtime.cancel(&mut pool, request), CancelOutcome::Queued);
    assert_eq!(runtime.cancel(&mut pool, request), CancelOutcome::Unknown);
    assert_eq!(
        runtime.step(&mut pool).expect("cancelling step"),
        StepOutcome::Cancelled { request }
    );
    assert_eq!(runtime.cancel(&mut pool, request), CancelOutcome::Unknown);
    assert_eq!(runtime.retained_results(), 1);
}
