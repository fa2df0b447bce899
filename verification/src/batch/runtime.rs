//! The batching runtime: waiting queue, reservation, execution and retained results.
//!
//! Retained capacity is reserved before a batch executes and released when the caller
//! consumes the result, so an executor cannot overshoot the budget by running first and
//! accounting afterwards. When the pool cannot cover the whole selected batch, the
//! runtime runs the largest prefix it can reserve instead of blocking: batching is an
//! optimization, so a shorter batch produces the same results.
//!
//! A granted reservation travels into the submission with the request it covers, and the
//! executor owns it from there. Output the runtime cannot commit is returned through
//! `BatchExecutor::retire` for the same reason.

use crate::batch::executor::{
    BatchConfig, BatchExecutor, BatchSelection, BlockReason, CancelOutcome, Completed,
    EnqueueError, Job, JobOutput, Rejection, RequestId, RequestIds, RuntimeError, StepOutcome,
    Terminal,
};
use crate::foundation::parameter::ParameterVersion;
use crate::foundation::pool::{BytePool, LeaseView, PoolLease, PoolView, ReserveError};
use crate::foundation::readiness::ReadinessWait;
use std::collections::VecDeque;
use vstd::prelude::*;

verus! {

/// One waiting request.
#[derive(Debug)]
pub struct Queued<I> {
    pub request: RequestId,
    pub input: I,
    pub parameter_version: ParameterVersion,
    /// Cancellation intent. A cancelled request stays in place so it keeps its FIFO
    /// position and no second cleanup list is needed; it is reported instead of executed
    /// once it reaches the head.
    pub cancelled: bool,
}

/// What the queue head resolved to before any execution or reservation happened.
///
/// `Ready` stays separate from `Blocked` so the capacity checks that follow can block on
/// the runtime's own retained budget without confusing it with an executor-reported
/// constraint.
#[derive(Debug)]
pub enum Resolved<C> {
    Idle,
    Blocked(BlockReason<C>),
    Rejected { request: RequestId },
    Cancelled { request: RequestId },
    /// How many requests the executor selected.
    Ready { items: usize },
}

/// What a runtime holds.
#[verifier::ext_equal]
pub struct BatchView<E: BatchExecutor> {
    pub executor: E,
    pub config: BatchConfig,
    pub queue: Seq<Queued<E::Input>>,
    pub terminal: Seq<Completed<E::Output, E::Constraint>>,
}

/// How many requests, from the oldest on, belong to `version` and are not cancelled, up
/// to `limit`.
pub open spec fn compatible<I>(
    queue: Seq<Queued<I>>,
    version: ParameterVersion,
    limit: nat,
) -> nat
    decreases limit,
{
    if limit == 0 || queue.len() == 0 || queue[0].parameter_version != version
        || queue[0].cancelled {
        0
    } else {
        1 + compatible(queue.drop_first(), version, (limit - 1) as nat)
    }
}

/// How many reservations, from the first on, the pool grants one after the other.
pub open spec fn grants(pool: PoolView, sizes: Seq<u64>) -> nat
    decreases sizes.len(),
{
    if sizes.len() == 0 || pool.refusal(sizes[0]) is Some {
        0
    } else {
        1 + grants(pool.reserved(sizes[0]), sizes.drop_first())
    }
}

/// The pool after granting the first `n` reservations.
pub open spec fn after_grants(pool: PoolView, sizes: Seq<u64>, n: nat) -> PoolView
    decreases n,
{
    if n == 0 {
        pool
    } else {
        let before = after_grants(pool, sizes, (n - 1) as nat);
        before.reserved(sizes[n - 1])
    }
}

/// The lease that the reservation at place `i` is granted, where all before it are.
pub open spec fn lease_at(pool: PoolView, sizes: Seq<u64>, i: int) -> LeaseView {
    LeaseView {
        pool: pool.identity(),
        allocation: (pool.next_allocation + i) as u64,
        bytes: sizes[i],
    }
}

/// Total of the bytes that the entries retain.
pub open spec fn retained_sum<O, C>(entries: Seq<Completed<O, C>>) -> int
    decreases entries.len(),
{
    if entries.len() == 0 {
        0
    } else {
        retained_sum(entries.drop_last()) + entries.last().spec_retained_bytes()
    }
}

/// The first waiting request from `i` on that carries the identity.
pub open spec fn find_queued<I>(queue: Seq<Queued<I>>, request: RequestId, i: int) -> Option<int>
    decreases queue.len() - i,
{
    if i < 0 || i >= queue.len() {
        None
    } else if queue[i].request == request {
        Some(i)
    } else {
        find_queued(queue, request, i + 1)
    }
}

/// The first terminal entry from `i` on that carries the identity.
pub open spec fn find_terminal<O, C>(
    terminal: Seq<Completed<O, C>>,
    request: RequestId,
    i: int,
) -> Option<int>
    decreases terminal.len() - i,
{
    if i < 0 || i >= terminal.len() {
        None
    } else if terminal[i].request == request {
        Some(i)
    } else {
        find_terminal(terminal, request, i + 1)
    }
}

impl<E: BatchExecutor> BatchView<E> {
    /// Both bounds hold, and a terminal entry keeps a charge exactly when it keeps output.
    pub open spec fn wf(self) -> bool {
        &&& self.config.max_waiting_requests > 0
        &&& self.config.max_retained_results > 0
        &&& self.queue.len() <= self.config.max_waiting_requests
        &&& self.terminal.len() <= self.config.max_retained_results
        &&& forall|i: int|
            0 <= i < self.terminal.len() ==> ((#[trigger] self.terminal[i]).outcome is Output
                <==> self.terminal[i].lease is Some)
    }

    /// Whether no terminal entry can be added.
    pub open spec fn terminal_full(self) -> bool {
        self.terminal.len() >= self.config.max_retained_results
    }

    /// How many requests the executor may choose from.
    pub open spec fn candidate_count(self) -> nat {
        compatible(
            self.queue,
            self.executor.spec_parameter_version(),
            self.executor.spec_max_batch_items() as nat,
        )
    }

    /// The inputs that the executor chooses from.
    pub open spec fn candidates(self) -> Seq<E::Input> {
        Seq::new(self.candidate_count(), |i: int| self.queue[i].input)
    }

    /// The executor's choice.
    pub open spec fn selection(self) -> BatchSelection<E::Constraint> {
        self.executor.spec_select_batch(self.candidates())
    }

    /// Bytes that the head request needs.
    pub open spec fn head_retention(self) -> u64 {
        self.executor.spec_retained_bytes(self.queue[0].input)
    }

    /// The runtime after the head leaves the queue with the outcome.
    pub open spec fn head_ended(self, outcome: Terminal<E::Output, E::Constraint>) -> BatchView<E> {
        BatchView {
            queue: self.queue.drop_first(),
            terminal: self.terminal.push(
                Completed {
                    request: self.queue[0].request,
                    parameter_version: self.queue[0].parameter_version,
                    outcome,
                    lease: None,
                },
            ),
            ..self
        }
    }

    /// Why the head can never run, if it cannot.
    pub open spec fn head_rejection(self, capacity: u64) -> Option<Rejection<E::Constraint>> {
        if self.head_retention() > capacity {
            Some(
                Rejection::RetainedOutputTooLarge { requested: self.head_retention(), capacity },
            )
        } else {
            match self.selection() {
                BatchSelection::Rejected(constraint) => Some(Rejection::Executor(constraint)),
                _ => None,
            }
        }
    }

    /// What the queue head resolves to against a pool of this capacity.
    pub open spec fn resolution(self, capacity: u64) -> Result<
        Resolved<E::Constraint>,
        RuntimeError<E::Error>,
    > {
        if self.queue.len() == 0 {
            Ok(Resolved::Idle)
        } else if self.queue[0].cancelled {
            if self.terminal_full() {
                Ok(Resolved::Blocked(BlockReason::RetainedResults))
            } else {
                Ok(Resolved::Cancelled { request: self.queue[0].request })
            }
        } else if self.queue[0].parameter_version != self.executor.spec_parameter_version() {
            Err(
                RuntimeError::ParameterVersionChanged {
                    queued: self.queue[0].parameter_version,
                    current: self.executor.spec_parameter_version(),
                },
            )
        } else if self.head_rejection(capacity) is Some {
            if self.terminal_full() {
                Ok(Resolved::Blocked(BlockReason::RetainedResults))
            } else {
                Ok(Resolved::Rejected { request: self.queue[0].request })
            }
        } else {
            match self.selection() {
                BatchSelection::Blocked(constraint) => Ok(
                    Resolved::Blocked(BlockReason::Executor(constraint)),
                ),
                BatchSelection::Ready { items } => if items == 0 || items
                    > self.candidate_count() {
                    Err(
                        RuntimeError::MalformedBatchSelection {
                            selected: items,
                            candidates: self.candidate_count() as usize,
                        },
                    )
                } else {
                    Ok(Resolved::Ready { items })
                },
                BatchSelection::Rejected(constraint) => Ok(
                    Resolved::Blocked(BlockReason::Executor(constraint)),
                ),
            }
        }
    }

    /// The runtime after its head was resolved: a cancelled or rejected head moves to the
    /// terminal queue, and nothing else changes anything.
    pub open spec fn resolved(self, capacity: u64) -> BatchView<E> {
        match self.resolution(capacity) {
            Ok(Resolved::Cancelled { request }) => self.head_ended(Terminal::Cancelled),
            Ok(Resolved::Rejected { request }) => self.head_ended(
                Terminal::Rejected(self.head_rejection(capacity)->Some_0),
            ),
            _ => self,
        }
    }

    /// How many of the selected requests the free terminal slots admit.
    pub open spec fn accepted(self, items: usize) -> nat {
        let free = self.config.max_retained_results - self.terminal.len();
        if items <= free {
            items as nat
        } else {
            free as nat
        }
    }

    /// Bytes that the first `n` waiting requests need.
    pub open spec fn sizes(self, n: nat) -> Seq<u64> {
        Seq::new(n, |i: int| self.executor.spec_retained_bytes(self.queue[i].input))
    }

    /// Identities of the first `n` waiting requests.
    pub open spec fn head_requests(self, n: nat) -> Seq<RequestId> {
        Seq::new(n, |i: int| self.queue[i].request)
    }
}

/// Whether the outputs answer the requests, one by one.
pub open spec fn answers<O>(outputs: Seq<JobOutput<O>>, expected: Seq<RequestId>) -> bool {
    &&& outputs.len() == expected.len()
    &&& forall|i: int| 0 <= i < outputs.len() ==> (#[trigger] outputs[i]).request == expected[i]
}

/// The terminal entries that outputs become: each keeps the charge that covers it.
pub open spec fn completed<O, C>(
    version: ParameterVersion,
    outputs: Seq<JobOutput<O>>,
) -> Seq<Completed<O, C>> {
    outputs.map_values(
        |output: JobOutput<O>|
            Completed {
                request: output.request,
                parameter_version: version,
                outcome: Terminal::Output(output.output),
                lease: Some(output.lease),
            },
    )
}

/// Whether the jobs are the oldest `n` waiting requests, each with the lease that was
/// granted for it.
pub open spec fn handed_over<E: BatchExecutor>(
    before: BatchView<E>,
    pool: PoolView,
    n: nat,
    jobs: Seq<Job<E::Input>>,
) -> bool {
    &&& jobs.len() == n
    &&& forall|i: int|
        0 <= i < n ==> {
            let job = #[trigger] jobs[i];
            &&& job.request == before.queue[i].request
            &&& job.input == before.queue[i].input
            &&& job.lease@ == lease_at(pool, before.sizes(n), i)
        }
}

/// What running the oldest `n` requests comes to: the executor is handed exactly their
/// jobs, with the pool charged for them, and its result decides the rest. Output that
/// answers the requests one by one is retained; any other output goes back to the
/// executor, and after a refusal or an uncertain failure nothing is retained.
pub open spec fn execution<E: BatchExecutor>(
    before: BatchView<E>,
    pool: PoolView,
    n: nat,
    jobs: Seq<Job<E::Input>>,
    middle: E,
    pool_middle: PoolView,
    result: Result<Vec<JobOutput<E::Output>>, EnqueueError<E::Error>>,
    after: BatchView<E>,
    pool_after: PoolView,
    r: Result<StepOutcome<E::Constraint>, RuntimeError<E::Error>>,
) -> bool {
    let version = before.executor.spec_parameter_version();
    let expected = before.head_requests(n);
    let taken = BatchView {
        executor: middle,
        queue: before.queue.skip(n as int),
        ..before
    };
    &&& handed_over(before, pool, n, jobs)
    &&& before.executor.executes(
        after_grants(pool, before.sizes(n), n),
        jobs,
        middle,
        pool_middle,
        result,
    )
    &&& match result {
        Ok(outputs) => if answers(outputs@, expected) {
            &&& r == Ok::<_, RuntimeError<E::Error>>(
                StepOutcome::<E::Constraint>::Executed { results: n as usize },
            )
            &&& after == (BatchView {
                terminal: before.terminal + completed(version, outputs@),
                ..taken
            })
            &&& pool_after == pool_middle
        } else {
            &&& r matches Err(RuntimeError::MalformedCompletion { requests, returned })
            &&& requests@ == expected
            &&& returned == outputs@.len()
            &&& middle.retires(pool_middle, outputs@, after.executor, pool_after)
            &&& after == (BatchView { executor: after.executor, ..taken })
        },
        Err(EnqueueError::Refused(cause)) => {
            &&& r matches Err(RuntimeError::Executor { requests, source })
            &&& requests@ == expected
            &&& source == cause
            &&& after == taken
            &&& pool_after == pool_middle
        },
        Err(EnqueueError::Uncertain(cause)) => {
            &&& r matches Err(RuntimeError::Uncertain { requests, source })
            &&& requests@ == expected
            &&& source == cause
            &&& after == taken
            &&& pool_after == pool_middle
        },
    }
}

/// What one step does to a runtime and to the pool, and what it reports.
///
/// Up to the reservation everything is decided by the runtime, the pool and the answers of
/// the executor. From there on the oldest requests that the pool covers leave the queue;
/// what the executor did with them decides whether their results are retained or they are
/// reported as never delivered.
pub open spec fn step_result<E: BatchExecutor>(
    before: BatchView<E>,
    pool: PoolView,
    after: BatchView<E>,
    pool_after: PoolView,
    r: Result<StepOutcome<E::Constraint>, RuntimeError<E::Error>>,
) -> bool {
    match before.resolution(pool.capacity) {
        Err(error) => r == Err::<StepOutcome<E::Constraint>, _>(error) && after == before
            && pool_after == pool,
        Ok(Resolved::Idle) => r == Ok::<_, RuntimeError<E::Error>>(
            StepOutcome::<E::Constraint>::Idle,
        ) && after == before && pool_after == pool,
        Ok(Resolved::Blocked(reason)) => r == Ok::<_, RuntimeError<E::Error>>(
            StepOutcome::Blocked(reason),
        ) && after == before && pool_after == pool,
        Ok(Resolved::Rejected { request }) => r == Ok::<_, RuntimeError<E::Error>>(
            StepOutcome::<E::Constraint>::Rejected { request },
        ) && after == before.resolved(pool.capacity) && pool_after == pool,
        Ok(Resolved::Cancelled { request }) => r == Ok::<_, RuntimeError<E::Error>>(
            StepOutcome::<E::Constraint>::Cancelled { request },
        ) && after == before.resolved(pool.capacity) && pool_after == pool,
        Ok(Resolved::Ready { items }) => {
            let sizes = before.sizes(before.accepted(items));
            let n = grants(pool, sizes);
            if before.terminal_full() {
                &&& r == Ok::<_, RuntimeError<E::Error>>(
                    StepOutcome::<E::Constraint>::Blocked(BlockReason::RetainedResults),
                )
                &&& after == before
                &&& pool_after == pool
            } else if n == 0 {
                &&& after == before
                &&& pool_after == pool
                &&& match pool.refusal(sizes[0]) {
                    Some(ReserveError::Exhausted { requested, available }) => r == Ok::<
                        _,
                        RuntimeError<E::Error>,
                    >(
                        StepOutcome::<E::Constraint>::Blocked(
                            BlockReason::Pool { requested, available },
                        ),
                    ),
                    _ => r == Err::<StepOutcome<E::Constraint>, _>(
                        RuntimeError::<E::Error>::PoolClosed,
                    ),
                }
            } else {
                exists|
                    jobs: Seq<Job<E::Input>>,
                    middle: E,
                    pool_middle: PoolView,
                    result: Result<Vec<JobOutput<E::Output>>, EnqueueError<E::Error>>,
                | #[trigger]
                    execution(
                        before,
                        pool,
                        n,
                        jobs,
                        middle,
                        pool_middle,
                        result,
                        after,
                        pool_after,
                        r,
                    )
            }
        },
    }
}

/// What cancelling a request does to a runtime and to the pool, and what it reports. A
/// waiting request is marked; a result goes back to the executor with its charge, and its
/// entry ends the terminal queue as a cancellation.
pub open spec fn cancel_result<E: BatchExecutor>(
    before: BatchView<E>,
    pool: PoolView,
    request: RequestId,
    after: BatchView<E>,
    pool_after: PoolView,
    r: CancelOutcome,
) -> bool {
    let waiting = find_queued(before.queue, request, 0);
    let ended = find_terminal(before.terminal, request, 0);
    match (waiting, ended) {
        (Some(i), _) => if before.queue[i].cancelled {
            r == CancelOutcome::Unknown && after == before && pool_after == pool
        } else {
            r == CancelOutcome::Queued && after == (BatchView {
                queue: before.queue.update(
                    i,
                    Queued { cancelled: true, ..before.queue[i] },
                ),
                ..before
            }) && pool_after == pool
        },
        (None, Some(j)) => if before.terminal[j].outcome is Cancelled {
            r == CancelOutcome::Unknown && after == before && pool_after == pool
        } else {
            &&& r == CancelOutcome::Discarded
            &&& after.queue == before.queue
            &&& after.config == before.config
            &&& after.terminal == before.terminal.remove(j).push(
                Completed {
                    request,
                    parameter_version: before.terminal[j].parameter_version,
                    outcome: Terminal::Cancelled,
                    lease: None,
                },
            )
            &&& match (before.terminal[j].outcome, before.terminal[j].lease) {
                (Terminal::Output(output), Some(lease)) => before.executor.retires(
                    pool,
                    seq![JobOutput { request, output, lease }],
                    after.executor,
                    pool_after,
                ),
                _ => after.executor == before.executor && pool_after == pool,
            }
        },
        (None, None) => r == CancelOutcome::Unknown && after == before && pool_after == pool,
    }
}

/// How reservation for the selected prefix ended.
#[derive(Debug)]
pub enum Reserved<C> {
    /// One lease for each request of the largest prefix that the pool covers.
    Leases(Vec<PoolLease>),
    /// Not even the first request could be covered.
    Blocked(BlockReason<C>),
    /// The pool grants nothing any more.
    Closed,
}

proof fn lemma_compatible_bound<I>(queue: Seq<Queued<I>>, version: ParameterVersion, limit: nat)
    ensures
        compatible(queue, version, limit) <= limit,
        compatible(queue, version, limit) <= queue.len(),
        forall|i: int|
            0 <= i < compatible(queue, version, limit) ==> (
            #[trigger] queue[i]).parameter_version == version && !queue[i].cancelled,
    decreases limit,
{
    if !(limit == 0 || queue.len() == 0 || queue[0].parameter_version != version
        || queue[0].cancelled) {
        let rest = queue.drop_first();
        lemma_compatible_bound(rest, version, (limit - 1) as nat);
        assert forall|i: int| 0 <= i < compatible(queue, version, limit) implies (
        #[trigger] queue[i]).parameter_version == version && !queue[i].cancelled by {
            if i > 0 {
                assert(queue[i] == rest[i - 1]);
            }
        }
    }
}

/// A prefix of compatible requests that stops at the limit, at the end of the queue or at
/// an incompatible request is the whole compatible prefix.
proof fn lemma_compatible_is<I>(
    queue: Seq<Queued<I>>,
    version: ParameterVersion,
    limit: nat,
    n: nat,
)
    requires
        n <= limit,
        n <= queue.len(),
        forall|i: int|
            0 <= i < n ==> (#[trigger] queue[i]).parameter_version == version
                && !queue[i].cancelled,
        n == limit || n == queue.len() || queue[n as int].parameter_version != version
            || queue[n as int].cancelled,
    ensures
        compatible(queue, version, limit) == n,
    decreases n,
{
    if n > 0 {
        let rest = queue.drop_first();
        assert forall|i: int| 0 <= i < n - 1 implies (#[trigger] rest[i]).parameter_version
            == version && !rest[i].cancelled by {
            assert(rest[i] == queue[i + 1]);
        }
        assert(queue[0].parameter_version == version);
        lemma_compatible_is(rest, version, (limit - 1) as nat, (n - 1) as nat);
    }
}

proof fn lemma_grants_bound(pool: PoolView, sizes: Seq<u64>)
    ensures
        grants(pool, sizes) <= sizes.len(),
    decreases sizes.len(),
{
    if sizes.len() > 0 && pool.refusal(sizes[0]) is None {
        lemma_grants_bound(pool.reserved(sizes[0]), sizes.drop_first());
    }
}

/// Granting further reservations continues where the earlier ones left the pool.
pub proof fn lemma_after_grants_next(pool: PoolView, sizes: Seq<u64>, n: nat)
    requires
        n <= sizes.len(),
        pool.next_allocation + sizes.len() <= u64::MAX,
    ensures
        after_grants(pool, sizes, n).next_allocation == pool.next_allocation + n,
        after_grants(pool, sizes, n).capacity == pool.capacity,
        after_grants(pool, sizes, n).closed == pool.closed,
        after_grants(pool, sizes, n).readiness == pool.readiness,
    decreases n,
{
    if n > 0 {
        lemma_after_grants_next(pool, sizes, (n - 1) as nat);
    }
}

/// Only the sizes that were granted matter to what granting them leaves.
pub proof fn lemma_after_grants_prefix(pool: PoolView, sizes: Seq<u64>, prefix: Seq<u64>, n: nat)
    requires
        n <= prefix.len() <= sizes.len(),
        forall|i: int| 0 <= i < prefix.len() ==> #[trigger] prefix[i] == sizes[i],
    ensures
        after_grants(pool, prefix, n) == after_grants(pool, sizes, n),
    decreases n,
{
    if n > 0 {
        lemma_after_grants_prefix(pool, sizes, prefix, (n - 1) as nat);
    }
}

/// The runtime: an executor, its waiting queue and its retained results.
pub struct BatchRuntime<E: BatchExecutor> {
    executor: E,
    config: BatchConfig,
    queue: VecDeque<Queued<E::Input>>,
    terminal: VecDeque<Completed<E::Output, E::Constraint>>,
}

impl<E: BatchExecutor> View for BatchRuntime<E> {
    type V = BatchView<E>;

    closed spec fn view(&self) -> BatchView<E> {
        BatchView {
            executor: self.executor,
            config: self.config,
            queue: self.queue@,
            terminal: self.terminal@,
        }
    }
}

impl<E: BatchExecutor> BatchRuntime<E> {
    /// Create a runtime that reserves retained output from a shared pool.
    ///
    /// # Errors
    /// Rejects a zero bound or an executor that cannot run one item.
    pub fn new(executor: E, config: BatchConfig) -> (r: Result<Self, RuntimeError<E::Error>>)
        ensures
            config.max_waiting_requests == 0 || config.max_retained_results == 0
                || executor.spec_max_batch_items() == 0 ==> r == Err::<Self, _>(
                RuntimeError::<E::Error>::InvalidConfig,
            ),
            config.max_waiting_requests > 0 && config.max_retained_results > 0
                && executor.spec_max_batch_items() > 0 ==> {
                &&& r is Ok
                &&& r->Ok_0@.wf()
                &&& r->Ok_0@ == (BatchView {
                    executor,
                    config,
                    queue: Seq::empty(),
                    terminal: Seq::empty(),
                })
            },
    {
        if config.max_waiting_requests == 0 || config.max_retained_results == 0
            || executor.max_batch_items() == 0 {
            return Err(RuntimeError::InvalidConfig);
        }
        Ok(BatchRuntime { executor, config, queue: VecDeque::new(), terminal: VecDeque::new() })
    }

    /// Queue one request, pinned to the executor's current parameter version.
    ///
    /// # Errors
    /// Rejects a closed pool, a full waiting queue or identity exhaustion.
    pub fn submit(&mut self, ids: &mut RequestIds, pool: &BytePool, input: E::Input) -> (r: Result<
        RequestId,
        RuntimeError<E::Error>,
    >)
        requires
            old(self)@.wf(),
        ensures
            final(self)@.wf(),
            pool@.closed ==> r == Err::<RequestId, _>(RuntimeError::<E::Error>::PoolClosed),
            !pool@.closed && old(self)@.queue.len() >= old(self)@.config.max_waiting_requests ==> r
                == Err::<RequestId, _>(RuntimeError::<E::Error>::WaitingCapacityExhausted),
            !pool@.closed && old(self)@.queue.len() < old(self)@.config.max_waiting_requests
                && old(ids)@ == u64::MAX ==> r == Err::<RequestId, _>(
                RuntimeError::<E::Error>::IdentityExhausted,
            ),
            r is Err ==> final(self)@ == old(self)@ && final(ids)@ == old(ids)@,
            !pool@.closed && old(self)@.queue.len() < old(self)@.config.max_waiting_requests
                && old(ids)@ < u64::MAX ==> {
                &&& r is Ok
                &&& r->Ok_0@ == old(ids)@
                &&& final(ids)@ == old(ids)@ + 1
                &&& final(self)@ == (BatchView {
                    queue: old(self)@.queue.push(
                        Queued {
                            request: r->Ok_0,
                            input,
                            parameter_version: old(self)@.executor.spec_parameter_version(),
                            cancelled: false,
                        },
                    ),
                    ..old(self)@
                })
            },
    {
        if pool.is_closed() {
            return Err(RuntimeError::PoolClosed);
        }
        if self.queue.len() >= self.config.max_waiting_requests {
            return Err(RuntimeError::WaitingCapacityExhausted);
        }
        let request: RequestId = match ids.take() {
            Some(request) => request,
            None => {
                return Err(RuntimeError::IdentityExhausted);
            },
        };
        let parameter_version = self.executor.parameter_version();
        self.queue.push_back(Queued { request, input, parameter_version, cancelled: false });
        Ok(request)
    }

    /// Deliver the head's end now, or block while no terminal slot is free.
    ///
    /// The terminal count bound applies to rejections and cancellations alike, exactly as
    /// it does to output.
    fn end_head(&mut self, outcome: Terminal<E::Output, E::Constraint>) -> (r: Option<RequestId>)
        requires
            old(self)@.wf(),
            old(self)@.queue.len() > 0,
            !(outcome is Output),
        ensures
            final(self)@.wf(),
            old(self)@.terminal_full() ==> r is None && final(self)@ == old(self)@,
            !old(self)@.terminal_full() ==> r == Some(old(self)@.queue[0].request) && final(self)@
                == old(self)@.head_ended(outcome),
    {
        if self.terminal.len() >= self.config.max_retained_results {
            return None;
        }
        let ended = self.queue.pop_front().unwrap();
        let request = ended.request;
        self.terminal.push_back(
            Completed {
                request,
                parameter_version: ended.parameter_version,
                outcome,
                lease: None,
            },
        );
        proof {
            let ghost before = old(self)@;
            assert(self@.queue =~= before.queue.drop_first());
            assert(self@ =~= before.head_ended(outcome));
        }
        Some(request)
    }

    /// Deliver the head's rejection now, or block while no terminal slot is free.
    fn reject_head(&mut self, rejection: Rejection<E::Constraint>) -> (r: Resolved<E::Constraint>)
        requires
            old(self)@.wf(),
            old(self)@.queue.len() > 0,
        ensures
            final(self)@.wf(),
            old(self)@.terminal_full() ==> r == Resolved::<E::Constraint>::Blocked(
                BlockReason::RetainedResults,
            ) && final(self)@ == old(self)@,
            !old(self)@.terminal_full() ==> r == (Resolved::<E::Constraint>::Rejected {
                request: old(self)@.queue[0].request,
            }) && final(self)@ == old(self)@.head_ended(Terminal::Rejected(rejection)),
    {
        match self.end_head(Terminal::Rejected(rejection)) {
            Some(request) => Resolved::Rejected { request },
            None => Resolved::Blocked(BlockReason::RetainedResults),
        }
    }

    /// The inputs that the executor may choose from: the oldest compatible requests.
    fn candidates(&self) -> (r: Vec<&E::Input>)
        ensures
            r@.unref() == self@.candidates(),
            r@.len() == self@.candidate_count(),
    {
        let version = self.executor.parameter_version();
        let limit: usize = self.executor.max_batch_items();
        let mut chosen: Vec<&E::Input> = Vec::new();
        let mut index: usize = 0;
        while index < limit && index < self.queue.len() && self.queue[index].parameter_version
            == version && !self.queue[index].cancelled
            invariant
                index <= limit,
                index <= self.queue@.len(),
                chosen@.len() == index,
                forall|i: int|
                    0 <= i < index ==> (#[trigger] self.queue@[i]).parameter_version == version
                        && !self.queue@[i].cancelled,
                forall|i: int| 0 <= i < index ==> *(#[trigger] chosen@[i]) == self.queue@[i].input,
            decreases limit - index,
        {
            chosen.push(&self.queue[index].input);
            index += 1;
        }
        proof {
            lemma_compatible_is(self.queue@, version, limit as nat, index as nat);
            assert(chosen@.unref() =~= self@.candidates());
        }
        chosen
    }

    /// Resolve the queue head without executing anything.
    ///
    /// Cancellation intent is resolved before any shape, capacity or selection work: a
    /// cancelled request must not reserve capacity, wait for a pool, or be offered to the
    /// executor as runnable work.
    ///
    /// # Errors
    /// Rejects a parameter-version change while queued work still targets the previous
    /// version, and a malformed executor batch selection.
    pub fn resolve_head(&mut self, pool: &BytePool) -> (r: Result<
        Resolved<E::Constraint>,
        RuntimeError<E::Error>,
    >)
        requires
            old(self)@.wf(),
        ensures
            final(self)@.wf(),
            r == old(self)@.resolution(pool@.capacity),
            final(self)@ == old(self)@.resolved(pool@.capacity),
    {
        if self.queue.len() == 0 {
            return Ok(Resolved::Idle);
        }
        if self.queue[0].cancelled {
            return match self.end_head(Terminal::Cancelled) {
                Some(request) => Ok(Resolved::Cancelled { request }),
                None => Ok(Resolved::Blocked(BlockReason::RetainedResults)),
            };
        }
        let version = self.executor.parameter_version();
        if self.queue[0].parameter_version != version {
            return Err(
                RuntimeError::ParameterVersionChanged {
                    queued: self.queue[0].parameter_version,
                    current: version,
                },
            );
        }
        let head_retention: u64 = self.executor.retained_bytes(&self.queue[0].input);
        // Releasing capacity cannot change the pool's total capacity, so a head whose own
        // output can never fit is rejected rather than parked.
        if head_retention > pool.capacity() {
            return Ok(
                self.reject_head(
                    Rejection::RetainedOutputTooLarge {
                        requested: head_retention,
                        capacity: pool.capacity(),
                    },
                ),
            );
        }
        let candidates = self.candidates();
        let count: usize = candidates.len();
        let selection = self.executor.select_batch(candidates.as_slice());
        match selection {
            BatchSelection::Blocked(constraint) => Ok(
                Resolved::Blocked(BlockReason::Executor(constraint)),
            ),
            BatchSelection::Rejected(constraint) => Ok(
                self.reject_head(Rejection::Executor(constraint)),
            ),
            BatchSelection::Ready { items } => {
                if items == 0 || items > count {
                    return Err(
                        RuntimeError::MalformedBatchSelection { selected: items, candidates: count },
                    );
                }
                Ok(Resolved::Ready { items })
            },
        }
    }

    /// Reserve retained output for the oldest requests, up to `accepted` of them.
    ///
    /// Batching is an optimization, so the accepted range shrinks to the largest prefix
    /// the pool grants rather than blocking on the whole selection. A later oversized item
    /// stops the prefix here and becomes the queue head's own rejection once earlier work
    /// drains.
    pub fn reserve_prefix(&self, pool: &mut BytePool, accepted: usize) -> (r: Reserved<
        E::Constraint,
    >)
        requires
            0 < accepted <= self@.queue.len(),
            self@.head_retention() <= old(pool)@.capacity,
            old(pool)@.next_allocation + accepted <= u64::MAX,
        ensures
            ({
                let sizes = self@.sizes(accepted as nat);
                let n = grants(old(pool)@, sizes);
                &&& n == 0 ==> final(pool)@ == old(pool)@ && (match old(pool)@.refusal(sizes[0]) {
                    Some(ReserveError::Exhausted { requested, available }) => r == Reserved::<
                        E::Constraint,
                    >::Blocked(BlockReason::Pool { requested, available }),
                    _ => r == Reserved::<E::Constraint>::Closed && old(pool)@.closed,
                })
                &&& n > 0 ==> {
                    &&& r is Leases
                    &&& r->Leases_0@.len() == n
                    &&& forall|i: int|
                        0 <= i < n ==> (#[trigger] r->Leases_0@[i])@ == lease_at(
                            old(pool)@,
                            sizes,
                            i,
                        )
                    &&& final(pool)@ == after_grants(old(pool)@, sizes, n)
                }
            }),
    {
        let ghost sizes = self@.sizes(accepted as nat);
        let ghost start = pool@;
        let mut leases: Vec<PoolLease> = Vec::new();
        let mut index: usize = 0;
        proof {
            assert(sizes.skip(0) =~= sizes);
        }
        while index < accepted
            invariant
                index <= accepted <= self@.queue.len(),
                accepted > 0,
                leases@.len() == index,
                sizes == self@.sizes(accepted as nat),
                start == old(pool)@,
                start.next_allocation + accepted <= u64::MAX,
                sizes[0] <= start.capacity,
                pool@ == after_grants(start, sizes, index as nat),
                grants(start, sizes) == index + grants(pool@, sizes.skip(index as int)),
                forall|i: int|
                    0 <= i < index ==> (#[trigger] leases@[i])@ == lease_at(start, sizes, i),
            decreases accepted - index,
        {
            proof {
                lemma_after_grants_next(start, sizes, index as nat);
                assert(sizes.skip(index as int)[0] == sizes[index as int]);
                assert(sizes.skip(index as int).drop_first() =~= sizes.skip(index + 1));
            }
            let bytes: u64 = self.executor.retained_bytes(&self.queue[index].input);
            assert(bytes == sizes[index as int]);
            match pool.reserve(bytes) {
                Ok(lease) => {
                    leases.push(lease);
                },
                Err(error) => {
                    if index == 0 {
                        return match error {
                            ReserveError::Exhausted { requested, available } => Reserved::Blocked(
                                BlockReason::Pool { requested, available },
                            ),
                            _ => Reserved::Closed,
                        };
                    }
                    return Reserved::Leases(leases);
                },
            }
            index += 1;
        }
        assert(sizes.skip(index as int) =~= Seq::<u64>::empty());
        Reserved::Leases(leases)
    }

    /// Take the oldest requests off the queue, each with the lease that covers it.
    ///
    /// The leases travel into the jobs, so the executor owns every reservation it was
    /// handed from the moment it is called.
    pub fn take_jobs(&mut self, leases: Vec<PoolLease>) -> (r: Vec<Job<E::Input>>)
        requires
            old(self)@.wf(),
            leases@.len() <= old(self)@.queue.len(),
        ensures
            final(self)@.wf(),
            final(self)@ == (BatchView {
                queue: old(self)@.queue.skip(leases@.len() as int),
                ..old(self)@
            }),
            r@ == Seq::new(
                leases@.len(),
                |i: int|
                    Job {
                        request: old(self)@.queue[i].request,
                        input: old(self)@.queue[i].input,
                        lease: leases@[i],
                    },
            ),
    {
        let ghost waiting = self@.queue;
        let ghost granted = leases@;
        let mut leases = leases;
        let mut jobs: Vec<Job<E::Input>> = Vec::new();
        let total: usize = leases.len();
        let mut index: usize = 0;
        while index < total
            invariant
                index <= total == granted.len() <= waiting.len(),
                leases@ == granted.skip(index as int),
                self.queue@ == waiting.skip(index as int),
                self.terminal@ == old(self).terminal@,
                self.config == old(self).config,
                self.executor == old(self).executor,
                waiting == old(self)@.queue,
                jobs@ == Seq::new(
                    index as nat,
                    |i: int|
                        Job {
                            request: waiting[i].request,
                            input: waiting[i].input,
                            lease: granted[i],
                        },
                ),
            decreases total - index,
        {
            let next = self.queue.pop_front().unwrap();
            let lease = leases.remove(0);
            assert(next == waiting[index as int]);
            assert(lease == granted[index as int]);
            jobs.push(Job { request: next.request, input: next.input, lease });
            index += 1;
            assert(leases@ =~= granted.skip(index as int));
            assert(self.queue@ =~= waiting.skip(index as int));
            assert(jobs@ =~= Seq::new(
                index as nat,
                |i: int|
                    Job { request: waiting[i].request, input: waiting[i].input, lease: granted[i] },
            ));
        }
        jobs
    }

    /// Commit what the executor returned for the requests it was given.
    ///
    /// Nothing can be committed where the returned output does not match the work: the
    /// storage behind each output may still be live, so it is handed back to the owner
    /// that can wait for completion.
    ///
    /// # Errors
    /// Reports the requests that will never be delivered, after a refusal, after an
    /// uncertain failure, or after output that does not match the work.
    pub fn settle(
        &mut self,
        pool: &mut BytePool,
        version: ParameterVersion,
        expected: Vec<RequestId>,
        result: Result<Vec<JobOutput<E::Output>>, EnqueueError<E::Error>>,
    ) -> (r: Result<usize, RuntimeError<E::Error>>)
        requires
            old(self)@.wf(),
            old(self)@.terminal.len() + expected@.len()
                <= old(self)@.config.max_retained_results,
        ensures
            final(self)@.wf(),
            final(self)@.queue == old(self)@.queue,
            final(self)@.config == old(self)@.config,
            match result {
                Err(EnqueueError::Refused(source)) => r == Err::<usize, _>(
                    RuntimeError::Executor { requests: expected, source },
                ) && final(self)@ == old(self)@ && final(pool)@ == old(pool)@,
                Err(EnqueueError::Uncertain(source)) => r == Err::<usize, _>(
                    RuntimeError::Uncertain { requests: expected, source },
                ) && final(self)@ == old(self)@ && final(pool)@ == old(pool)@,
                Ok(outputs) => if answers(outputs@, expected@) {
                    &&& r == Ok::<usize, RuntimeError<E::Error>>(outputs.len())
                    &&& final(self)@ == (BatchView {
                        terminal: old(self)@.terminal + completed(version, outputs@),
                        ..old(self)@
                    })
                    &&& final(pool)@ == old(pool)@
                } else {
                    &&& r == Err::<usize, _>(
                        RuntimeError::<E::Error>::MalformedCompletion {
                            requests: expected,
                            returned: outputs.len(),
                        },
                    )
                    &&& old(self)@.executor.retires(
                        old(pool)@,
                        outputs@,
                        final(self)@.executor,
                        final(pool)@,
                    )
                    &&& final(self)@ == (BatchView {
                        executor: final(self)@.executor,
                        ..old(self)@
                    })
                },
            },
    {
        let outputs: Vec<JobOutput<E::Output>> = match result {
            Ok(outputs) => outputs,
            Err(EnqueueError::Refused(source)) => {
                return Err(RuntimeError::Executor { requests: expected, source });
            },
            Err(EnqueueError::Uncertain(source)) => {
                return Err(RuntimeError::Uncertain { requests: expected, source });
            },
        };
        let returned: usize = outputs.len();
        let mut matching: bool = returned == expected.len();
        let mut index: usize = 0;
        while matching && index < returned
            invariant
                returned == outputs.len(),
                index <= returned,
                matching ==> returned == expected@.len(),
                matching ==> forall|i: int|
                    0 <= i < index ==> (#[trigger] outputs@[i]).request == expected@[i],
                !matching ==> !answers(outputs@, expected@),
            decreases returned - index,
        {
            if outputs[index].request != expected[index] {
                matching = false;
            }
            index += 1;
        }
        if !matching {
            self.executor.retire(pool, outputs);
            return Err(RuntimeError::MalformedCompletion { requests: expected, returned });
        }
        let ghost given = outputs@;
        let ghost kept = self.terminal@;
        let mut outputs = outputs;
        let mut done: usize = 0;
        while done < returned
            invariant
                done <= returned == given.len(),
                outputs@ == given.skip(done as int),
                self.terminal@ == kept + completed::<E::Output, E::Constraint>(
                    version,
                    given.take(done as int),
                ),
                self.queue@ == old(self).queue@,
                self.config == old(self).config,
                self.executor == old(self).executor,
            decreases returned - done,
        {
            let output = outputs.remove(0);
            assert(output == given[done as int]);
            self.terminal.push_back(
                Completed {
                    request: output.request,
                    parameter_version: version,
                    outcome: Terminal::Output(output.output),
                    lease: Some(output.lease),
                },
            );
            done += 1;
            assert(outputs@ =~= given.skip(done as int));
            assert(self.terminal@ =~= kept + completed::<E::Output, E::Constraint>(
                version,
                given.take(done as int),
            ));
        }
        assert(given.take(done as int) =~= given);
        Ok(returned)
    }

    /// Resolve what to do with the queue head, then execute at most one batch.
    ///
    /// A blocked outcome is a wakeup contract rather than a failure: retry only after the
    /// named condition changes. Consuming retained entries and giving their charge back is
    /// the wakeup for [`BlockReason::RetainedResults`]; a release by any owner of the pool
    /// is the wakeup for [`BlockReason::Pool`].
    ///
    /// # Errors
    /// Rejects a parameter-version change while queued work still targets the previous
    /// version, a malformed executor batch selection, malformed executor output, a closed
    /// pool, or an executor failure.
    pub fn step(&mut self, pool: &mut BytePool) -> (r: Result<
        StepOutcome<E::Constraint>,
        RuntimeError<E::Error>,
    >)
        requires
            old(self)@.wf(),
            old(pool)@.next_allocation + old(self)@.queue.len() <= u64::MAX,
        ensures
            final(self)@.wf(),
            final(self)@.config == old(self)@.config,
            step_result(old(self)@, old(pool)@, final(self)@, final(pool)@, r),
    {
        let ghost before = self@;
        let resolved = match self.resolve_head(pool) {
            Ok(resolved) => resolved,
            Err(error) => {
                return Err(error);
            },
        };
        let items: usize = match resolved {
            Resolved::Idle => {
                return Ok(StepOutcome::Idle);
            },
            Resolved::Blocked(reason) => {
                return Ok(StepOutcome::Blocked(reason));
            },
            Resolved::Rejected { request } => {
                return Ok(StepOutcome::Rejected { request });
            },
            Resolved::Cancelled { request } => {
                return Ok(StepOutcome::Cancelled { request });
            },
            Resolved::Ready { items } => items,
        };
        // A rejection occupies the retained-result budget until it is consumed, exactly
        // like an output, so the count bound applies before anything runs.
        let free_slots: usize = self.config.max_retained_results - self.terminal.len();
        if free_slots == 0 {
            return Ok(StepOutcome::Blocked(BlockReason::RetainedResults));
        }
        let accepted: usize = if items <= free_slots {
            items
        } else {
            free_slots
        };
        proof {
            lemma_compatible_bound(
                before.queue,
                before.executor.spec_parameter_version(),
                before.executor.spec_max_batch_items() as nat,
            );
        }
        // Reserve every retained output before submitting work, so a full pool stops
        // execution instead of being discovered after the fact.
        let leases: Vec<PoolLease> = match self.reserve_prefix(pool, accepted) {
            Reserved::Leases(leases) => leases,
            Reserved::Blocked(reason) => {
                return Ok(StepOutcome::Blocked(reason));
            },
            Reserved::Closed => {
                return Err(RuntimeError::PoolClosed);
            },
        };
        proof {
            lemma_grants_bound(old(pool)@, before.sizes(accepted as nat));
        }
        let version = self.executor.parameter_version();
        let count: usize = leases.len();
        let expected = self.oldest_requests(count);
        let jobs = self.take_jobs(leases);
        let ghost handed = jobs@;
        proof {
            assert(before.sizes(accepted as nat).take(count as int) =~= before.sizes(
                count as nat,
            ));
            lemma_after_grants_prefix(
                old(pool)@,
                before.sizes(accepted as nat),
                before.sizes(count as nat),
                count as nat,
            );
        }
        let result = self.executor.execute(pool, jobs);
        let ghost middle = self@.executor;
        let ghost pool_middle = pool@;
        let ghost returned = result;
        let settled = self.settle(pool, version, expected, result);
        let outcome = match settled {
            Ok(results) => Ok(StepOutcome::Executed { results }),
            Err(error) => Err(error),
        };
        proof {
            assert(execution(
                before,
                old(pool)@,
                count as nat,
                handed,
                middle,
                pool_middle,
                returned,
                self@,
                pool@,
                outcome,
            ));
        }
        outcome
    }

    /// Identities of the oldest `count` waiting requests.
    fn oldest_requests(&self, count: usize) -> (r: Vec<RequestId>)
        requires
            count <= self@.queue.len(),
        ensures
            r@ == self@.head_requests(count as nat),
    {
        let mut requests: Vec<RequestId> = Vec::new();
        let mut index: usize = 0;
        while index < count
            invariant
                index <= count <= self.queue@.len(),
                requests@.len() == index,
                forall|i: int| 0 <= i < index ==> #[trigger] requests@[i] == self.queue@[i].request,
            decreases count - index,
        {
            requests.push(self.queue[index].request);
            index += 1;
        }
        assert(requests@ =~= self@.head_requests(count as nat));
        requests
    }

    /// Cancel one live request.
    ///
    /// Cancellation is intent, not device completion. A request that is still waiting
    /// reports cancellation instead of running, which releases nothing because nothing
    /// was reserved for it. A request whose result is already retained gives that result
    /// back to the executor, together with the charge covering it, and reports
    /// cancellation instead; the runtime never releases device storage or its charge on
    /// its own. Either outcome is delivered through the ordinary terminal queue.
    pub fn cancel(&mut self, pool: &mut BytePool, request: RequestId) -> (r: CancelOutcome)
        requires
            old(self)@.wf(),
        ensures
            final(self)@.wf(),
            final(self)@.config == old(self)@.config,
            cancel_result(old(self)@, old(pool)@, request, final(self)@, final(pool)@, r),
    {
        let mut index: usize = 0;
        while index < self.queue.len()
            invariant
                index <= self.queue@.len(),
                *self == *old(self),
                pool@ == old(pool)@,
                find_queued(self@.queue, request, 0) == find_queued(
                    self@.queue,
                    request,
                    index as int,
                ),
                self@.wf(),
            decreases self.queue.len() - index,
        {
            if self.queue[index].request == request {
                if self.queue[index].cancelled {
                    return CancelOutcome::Unknown;
                }
                let ghost waiting = self.queue@;
                let queued = self.queue.remove(index).unwrap();
                let marked = Queued {
                    request: queued.request,
                    input: queued.input,
                    parameter_version: queued.parameter_version,
                    cancelled: true,
                };
                self.queue.insert(index, marked);
                assert(self.queue@ =~= waiting.update(index as int, marked));
                return CancelOutcome::Queued;
            }
            index += 1;
        }
        let mut position: usize = 0;
        while position < self.terminal.len()
            invariant
                position <= self.terminal@.len(),
                *self == *old(self),
                pool@ == old(pool)@,
                find_queued(self@.queue, request, 0) is None,
                find_terminal(self@.terminal, request, 0) == find_terminal(
                    self@.terminal,
                    request,
                    position as int,
                ),
                self@.wf(),
            decreases self.terminal.len() - position,
        {
            if self.terminal[position].request == request {
                if self.terminal[position].is_cancelled() {
                    return CancelOutcome::Unknown;
                }
                let ghost ended = self.terminal@;
                let entry = self.terminal.remove(position).unwrap();
                assert(self.terminal@ =~= ended.remove(position as int));
                let parameter_version = entry.parameter_version;
                let (outcome, lease) = entry.into_parts();
                // A retained device result cannot be dropped by the runtime: the storage
                // may still be running, and its charge must stay with it. The executor
                // that materialized it is the only owner that can wait for completion.
                if let Terminal::Output(output) = outcome {
                    if let Some(lease) = lease {
                        let mut given_back: Vec<JobOutput<E::Output>> = Vec::new();
                        given_back.push(JobOutput { request, output, lease });
                        self.executor.retire(pool, given_back);
                    }
                }
                self.terminal.push_back(
                    Completed {
                        request,
                        parameter_version,
                        outcome: Terminal::Cancelled,
                        lease: None,
                    },
                );
                return CancelOutcome::Discarded;
            }
            position += 1;
        }
        CancelOutcome::Unknown
    }

    /// Consume the oldest terminal entry and hand over its reservation.
    ///
    /// Handing the entry to another owner transfers the charge with it, because the
    /// storage it covers travels too.
    #[must_use]
    pub fn pop_completed(&mut self) -> (r: Option<Completed<E::Output, E::Constraint>>)
        requires
            old(self)@.wf(),
        ensures
            final(self)@.wf(),
            old(self)@.terminal.len() == 0 ==> r is None && final(self)@ == old(self)@,
            old(self)@.terminal.len() > 0 ==> r == Some(old(self)@.terminal[0]) && final(self)@ == (
            BatchView { terminal: old(self)@.terminal.drop_first(), ..old(self)@ }),
    {
        let entry = self.terminal.pop_front();
        assert(old(self)@.terminal.len() > 0 ==> self.terminal@ =~= old(
            self,
        )@.terminal.drop_first());
        entry
    }

    #[must_use]
    pub fn queued(&self) -> (r: usize)
        ensures
            r == self@.queue.len(),
    {
        self.queue.len()
    }

    /// Terminal entries the caller has not consumed, which is what
    /// `max_retained_results` bounds: a rejection occupies the budget until it is consumed
    /// exactly like an output does.
    #[must_use]
    pub fn retained_results(&self) -> (r: usize)
        ensures
            r == self@.terminal.len(),
    {
        self.terminal.len()
    }

    /// Register before attempting work against the shared pool.
    #[must_use]
    pub fn capacity_wait(&self, pool: &BytePool) -> (r: ReadinessWait)
        ensures
            r@ == pool@.readiness.registered(),
    {
        pool.capacity_wait()
    }

    /// Bytes this runtime's retained entries currently hold in the shared pool.
    ///
    /// A sibling runtime's leases are not counted here.
    #[must_use]
    pub fn retained_output_bytes(&self) -> (r: u64)
        ensures
            retained_sum(self@.terminal) <= u64::MAX ==> r == retained_sum(self@.terminal),
            retained_sum(self@.terminal) > u64::MAX ==> r == u64::MAX,
    {
        let mut total: u64 = 0;
        let mut index: usize = 0;
        while index < self.terminal.len()
            invariant
                index <= self.terminal@.len(),
                0 <= retained_sum(self.terminal@.take(index as int)),
                retained_sum(self.terminal@.take(index as int)) <= u64::MAX ==> total
                    == retained_sum(self.terminal@.take(index as int)),
                retained_sum(self.terminal@.take(index as int)) > u64::MAX ==> total == u64::MAX,
            decreases self.terminal.len() - index,
        {
            let bytes: u64 = self.terminal[index].retained_bytes();
            total = total.saturating_add(bytes);
            index += 1;
            assert(self.terminal@.take(index as int).drop_last() =~= self.terminal@.take(
                index - 1,
            ));
            assert(self.terminal@.take(index as int).last() == self.terminal@[index - 1]);
        }
        assert(self.terminal@.take(index as int) =~= self.terminal@);
        total
    }

    #[must_use]
    pub fn config(&self) -> (r: BatchConfig)
        ensures
            r == self@.config,
    {
        self.config
    }

    #[must_use]
    pub fn executor(&self) -> (r: &E)
        ensures
            *r == self@.executor,
    {
        &self.executor
    }

    #[must_use]
    pub fn executor_mut(&mut self) -> (r: &mut E)
        ensures
            *r == old(self)@.executor,
            final(self)@ == (BatchView { executor: *final(r), ..old(self)@ }),
    {
        &mut self.executor
    }
}

/// Identities in the order in which their requests end: those of the retained entries,
/// then those still waiting.
pub open spec fn order<E: BatchExecutor>(v: BatchView<E>) -> Seq<RequestId> {
    v.terminal.map_values(|entry: Completed<E::Output, E::Constraint>| entry.request)
        + v.queue.map_values(|queued: Queued<E::Input>| queued.request)
}

/// Requests end in the order in which they were submitted: whatever a step reports, short
/// of an error, it only moves the boundary between what has ended and what still waits.
pub proof fn law_requests_end_in_submission_order<E: BatchExecutor>(
    before: BatchView<E>,
    pool: PoolView,
    after: BatchView<E>,
    pool_after: PoolView,
    r: Result<StepOutcome<E::Constraint>, RuntimeError<E::Error>>,
)
    requires
        before.wf(),
        step_result(before, pool, after, pool_after, r),
        r is Ok,
    ensures
        order(after) == order(before),
{
    match before.resolution(pool.capacity) {
        Ok(Resolved::Ready { items }) => {
            let sizes = before.sizes(before.accepted(items));
            let n = grants(pool, sizes);
            lemma_grants_bound(pool, sizes);
            lemma_compatible_bound(
                before.queue,
                before.executor.spec_parameter_version(),
                before.executor.spec_max_batch_items() as nat,
            );
            if !before.terminal_full() && n > 0 {
                let kept = before.terminal.len() as int;
                let (jobs, middle, pool_middle, result) = choose|
                    jobs: Seq<Job<E::Input>>,
                    middle: E,
                    pool_middle: PoolView,
                    result: Result<Vec<JobOutput<E::Output>>, EnqueueError<E::Error>>,
                | #[trigger]
                    execution(
                        before,
                        pool,
                        n,
                        jobs,
                        middle,
                        pool_middle,
                        result,
                        after,
                        pool_after,
                        r,
                    );
                let outputs = result->Ok_0@;
                assert forall|i: int| 0 <= i < order(before).len() implies order(after)[i]
                    == order(before)[i] by {
                    if i < kept {
                        assert(after.terminal[i] == before.terminal[i]);
                    } else if i < kept + n {
                        assert(after.terminal[i].request == outputs[i - kept].request);
                        assert(before.head_requests(n)[i - kept] == before.queue[i
                            - kept].request);
                    } else {
                        assert(after.queue[i - kept - n] == before.queue[i - kept]);
                    }
                }
                assert(order(after) =~= order(before));
            }
        },
        Ok(Resolved::Rejected { request }) => {
            lemma_head_ended_keeps_order(
                before,
                Terminal::Rejected(before.head_rejection(pool.capacity)->Some_0),
            );
        },
        Ok(Resolved::Cancelled { request }) => {
            lemma_head_ended_keeps_order(before, Terminal::Cancelled);
        },
        _ => {},
    }
}

proof fn lemma_head_ended_keeps_order<E: BatchExecutor>(
    v: BatchView<E>,
    outcome: Terminal<E::Output, E::Constraint>,
)
    requires
        v.queue.len() > 0,
    ensures
        order(v.head_ended(outcome)) == order(v),
{
    assert(order(v.head_ended(outcome)) =~= order(v));
}

/// The reservation covers the largest prefix that the pool can grant: each request of it
/// is granted in turn, and the next one, where there is one, is refused.
pub proof fn law_reservation_takes_the_largest_prefix(pool: PoolView, sizes: Seq<u64>)
    ensures
        grants(pool, sizes) <= sizes.len(),
        forall|k: int|
            0 <= k < grants(pool, sizes) ==> (#[trigger] after_grants(
                pool,
                sizes,
                k as nat,
            )).refusal(sizes[k]) is None,
        grants(pool, sizes) < sizes.len() ==> after_grants(
            pool,
            sizes,
            grants(pool, sizes),
        ).refusal(sizes[grants(pool, sizes) as int]) is Some,
    decreases sizes.len(),
{
    lemma_grants_bound(pool, sizes);
    if sizes.len() > 0 && pool.refusal(sizes[0]) is None {
        let next = pool.reserved(sizes[0]);
        let rest = sizes.drop_first();
        law_reservation_takes_the_largest_prefix(next, rest);
        assert forall|k: int| 0 <= k < grants(pool, sizes) implies (#[trigger] after_grants(
            pool,
            sizes,
            k as nat,
        )).refusal(sizes[k]) is None by {
            if k > 0 {
                lemma_after_grants_shift(pool, sizes, k as nat);
                assert(after_grants(next, rest, (k - 1) as nat).refusal(rest[k - 1]) is None);
            }
        }
        if grants(pool, sizes) < sizes.len() {
            lemma_after_grants_shift(pool, sizes, grants(pool, sizes));
        }
    }
}

proof fn lemma_after_grants_shift(pool: PoolView, sizes: Seq<u64>, n: nat)
    requires
        0 < n <= sizes.len(),
    ensures
        after_grants(pool, sizes, n) == after_grants(
            pool.reserved(sizes[0]),
            sizes.drop_first(),
            (n - 1) as nat,
        ),
    decreases n,
{
    if n > 1 {
        lemma_after_grants_shift(pool, sizes, (n - 1) as nat);
    } else {
        assert(after_grants(pool, sizes, 0) == pool);
    }
}

/// A step that blocks, finds no work or fails before execution leaves the queue, the
/// retained entries and the pool untouched.
pub proof fn law_blocked_steps_change_nothing<E: BatchExecutor>(
    before: BatchView<E>,
    pool: PoolView,
    after: BatchView<E>,
    pool_after: PoolView,
    r: Result<StepOutcome<E::Constraint>, RuntimeError<E::Error>>,
)
    requires
        step_result(before, pool, after, pool_after, r),
        match r {
            Ok(StepOutcome::Blocked(_)) => true,
            Ok(StepOutcome::Idle) => true,
            Err(RuntimeError::PoolClosed) => true,
            Err(RuntimeError::ParameterVersionChanged { .. }) => true,
            Err(RuntimeError::MalformedBatchSelection { .. }) => true,
            _ => false,
        },
    ensures
        after == before,
        pool_after == pool,
{
}

/// A head whose own output can never fit the pool is rejected while a terminal slot is
/// free, however much of the pool other owners hold.
pub proof fn law_oversized_heads_never_wait<E: BatchExecutor>(v: BatchView<E>, pool: PoolView)
    requires
        v.queue.len() > 0,
        !v.queue[0].cancelled,
        v.queue[0].parameter_version == v.executor.spec_parameter_version(),
        v.head_retention() > pool.capacity,
        !v.terminal_full(),
    ensures
        v.resolution(pool.capacity) == Ok::<_, RuntimeError<E::Error>>(
            Resolved::<E::Constraint>::Rejected { request: v.queue[0].request },
        ),
{
}

/// Neither a cancelled request nor one of another parameter version is ever among the
/// requests that an executor may run.
pub proof fn law_cancelled_requests_never_run<E: BatchExecutor>(v: BatchView<E>, capacity: u64)
    ensures
        v.resolution(capacity) matches Ok(Resolved::Ready { items }) ==> items <= v.queue.len()
            && items <= v.executor.spec_max_batch_items() && forall|i: int|
            0 <= i < items ==> !(#[trigger] v.queue[i]).cancelled
                && v.queue[i].parameter_version == v.executor.spec_parameter_version(),
{
    lemma_compatible_bound(
        v.queue,
        v.executor.spec_parameter_version(),
        v.executor.spec_max_batch_items() as nat,
    );
}

} // verus!
