//! Byte-pool and batch-runtime readiness, with a caller-owned wake key.

use std::convert::Infallible;

use ribn::batch::executor::{
    BatchConfig, BatchExecutor, BatchSelection, BlockReason, CancelOutcome, EnqueueError, Job,
    JobOutput, RequestIds, RuntimeError, StepOutcome,
};
use ribn::batch::runtime::BatchRuntime;
use ribn::foundation::parameter::ParameterVersion;
use ribn::foundation::pool::BytePool;
use ribn::foundation::readiness::SourceIds;

fn fresh_pool(capacity: u64) -> BytePool {
    BytePool::new(SourceIds::new().take().expect("source"), capacity)
}

const OWNER: u64 = 41;

fn notified(pool: &mut BytePool) {
    assert_eq!(pool.take_woken(), vec![OWNER], "resource notification");
}

fn not_notified(pool: &mut BytePool) {
    assert!(pool.take_woken().is_empty());
}

/// The fixture executor's retained charge is exactly its input envelope.
struct Envelope;

impl BatchExecutor for Envelope {
    type Input = u64;
    type Output = u64;
    type Error = Infallible;
    type Constraint = Infallible;

    fn parameter_version(&self) -> ParameterVersion {
        ParameterVersion::new(1)
    }

    fn max_batch_items(&self) -> usize {
        4
    }

    fn select_batch(&self, candidates: &[&Self::Input]) -> BatchSelection<Self::Constraint> {
        BatchSelection::Ready {
            items: candidates.len(),
        }
    }

    fn retained_bytes(&self, input: &Self::Input) -> u64 {
        *input
    }

    fn execute(
        &mut self,
        _pool: &mut BytePool,
        batch: Vec<Job<Self::Input>>,
    ) -> Result<Vec<JobOutput<Self::Output>>, EnqueueError<Self::Error>> {
        Ok(batch
            .into_iter()
            .map(|job| {
                let (request, input, lease) = job.into_parts();
                JobOutput::new(request, input, lease)
            })
            .collect())
    }

    fn retire(&mut self, _pool: &mut BytePool, _outputs: Vec<JobOutput<Self::Output>>) {}
}

fn runtime() -> BatchRuntime<Envelope> {
    BatchRuntime::new(
        Envelope,
        BatchConfig {
            max_waiting_requests: 8,
            max_retained_results: 4,
        },
    )
    .expect("runtime")
}

fn blocked(runtime: &mut BatchRuntime<Envelope>, pool: &mut BytePool) {
    assert_eq!(
        runtime.step(pool).unwrap(),
        StepOutcome::Blocked(BlockReason::Pool {
            requested: 64,
            available: 0,
        })
    );
}

fn executed(runtime: &mut BatchRuntime<Envelope>, pool: &mut BytePool) {
    assert_eq!(
        runtime.step(pool).unwrap(),
        StepOutcome::Executed { results: 1 }
    );
}

#[test]
fn a_release_before_arming_is_not_lost() {
    let mut ids = RequestIds::new();
    let mut pool = fresh_pool(64);
    let held = pool.reserve(64).unwrap();
    let mut runtime = runtime();
    runtime.submit(&mut ids, &pool, 64).unwrap();
    let mut wait = runtime.capacity_wait(&pool);
    blocked(&mut runtime, &mut pool);
    assert!(!pool.changed(&wait));
    pool.release(held);
    assert!(pool.changed(&wait));
    pool.wake_on_change(&mut wait, OWNER);
    notified(&mut pool);
    executed(&mut runtime, &mut pool);
}

#[test]
fn a_registration_is_taken_from_this_runtimes_own_pool() {
    let mut ids = RequestIds::new();
    let mut sources = SourceIds::new();
    let mut pool = BytePool::new(sources.take().unwrap(), 64);
    let held = pool.reserve(64).unwrap();
    let mut runtime = runtime();
    runtime.submit(&mut ids, &pool, 64).unwrap();
    let mut wait = runtime.capacity_wait(&pool);
    blocked(&mut runtime, &mut pool);
    pool.wake_on_change(&mut wait, OWNER);
    let mut other = BytePool::new(sources.take().unwrap(), 64);
    let other_lease = other.reserve(64).unwrap();
    other.release(other_lease);
    assert!(!pool.changed(&wait));
    assert!(!other.changed(&wait));
    not_notified(&mut pool);
    pool.release(held);
    notified(&mut pool);
    assert!(pool.changed(&wait));
}

#[test]
fn pool_closure_reactivates_a_wait_without_releasing_live_charges() {
    let mut ids = RequestIds::new();
    let mut pool = fresh_pool(64);
    let held = pool.reserve(64).unwrap();
    let mut runtime = runtime();
    runtime.submit(&mut ids, &pool, 64).unwrap();
    let mut wait = runtime.capacity_wait(&pool);
    blocked(&mut runtime, &mut pool);
    pool.wake_on_change(&mut wait, OWNER);
    pool.close();
    notified(&mut pool);
    assert!(pool.changed(&wait));
    assert_eq!(pool.granted(), 64);
    assert!(matches!(
        runtime.step(&mut pool),
        Err(RuntimeError::PoolClosed)
    ));
    let mut already_closed = pool.capacity_wait();
    pool.wake_on_change(&mut already_closed, OWNER);
    pool.close();
    assert!(
        !pool.changed(&already_closed),
        "repeated closure changes no condition"
    );
    not_notified(&mut pool);
    pool.release(held);
    assert_eq!(pool.granted(), 0);
}

#[test]
fn cancelling_and_dropping_a_registration_detaches_its_notification() {
    let mut ids = RequestIds::new();
    let mut pool = fresh_pool(64);
    let held = pool.reserve(64).unwrap();
    let mut runtime = runtime();
    let request = runtime.submit(&mut ids, &pool, 64).unwrap();
    let mut wait = runtime.capacity_wait(&pool);
    blocked(&mut runtime, &mut pool);
    pool.wake_on_change(&mut wait, OWNER);
    assert_eq!(runtime.cancel(&mut pool, request), CancelOutcome::Queued);
    pool.detach(wait);
    pool.release(held);
    not_notified(&mut pool);
    assert_eq!(pool.granted(), 0);
}

#[test]
fn dequeued_output_keeps_its_charge_and_only_retirement_wakes_a_sibling() {
    let mut ids = RequestIds::new();
    let mut pool = fresh_pool(64);
    let mut first = runtime();
    let mut second = runtime();
    first.submit(&mut ids, &pool, 64).unwrap();
    executed(&mut first, &mut pool);
    second.submit(&mut ids, &pool, 64).unwrap();
    let mut wait = second.capacity_wait(&pool);
    blocked(&mut second, &mut pool);
    pool.wake_on_change(&mut wait, OWNER);
    let output = first.pop_completed().unwrap();
    assert_eq!(pool.granted(), 64);
    assert!(!pool.changed(&wait));
    not_notified(&mut pool);
    let _ = output.into_outcome(&mut pool);
    notified(&mut pool);
    executed(&mut second, &mut pool);
}

#[test]
fn stolen_capacity_requires_a_fresh_registration_and_second_publication() {
    let mut ids = RequestIds::new();
    let mut pool = fresh_pool(64);
    let held = pool.reserve(64).unwrap();
    let mut runtime = runtime();
    runtime.submit(&mut ids, &pool, 64).unwrap();
    let mut wait = runtime.capacity_wait(&pool);
    blocked(&mut runtime, &mut pool);
    pool.wake_on_change(&mut wait, OWNER);
    pool.release(held);
    notified(&mut pool);
    let competitor = pool.reserve(64).unwrap();
    let mut retry = runtime.capacity_wait(&pool);
    blocked(&mut runtime, &mut pool);
    pool.wake_on_change(&mut retry, OWNER);
    assert!(!pool.changed(&retry));
    not_notified(&mut pool);
    pool.release(competitor);
    notified(&mut pool);
    executed(&mut runtime, &mut pool);
}
