//! What an executor is handed, what it hands back, and how it answers.

use crate::foundation::parameter::ParameterVersion;
use crate::foundation::pool::{AllocationId, BytePool, PoolLease, PoolView};
use vstd::prelude::*;

verus! {

/// Identity of one submitted request.
#[derive(Clone, Copy, Debug, Hash, PartialEq, Eq, Structural)]
pub struct RequestId(u64);

impl View for RequestId {
    type V = u64;

    closed spec fn view(&self) -> u64 {
        self.0
    }
}

impl RequestId {
    #[must_use]
    pub fn get(self) -> (r: u64)
        ensures
            r == self@,
    {
        self.0
    }
}

/// Where request identities come from. One source serves every runtime of a process, so
/// that an identity names one request.
#[derive(Debug)]
pub struct RequestIds {
    next: u64,
}

impl View for RequestIds {
    type V = u64;

    closed spec fn view(&self) -> u64 {
        self.next
    }
}

impl RequestIds {
    /// A source that starts at the first identity.
    #[must_use]
    pub fn new() -> (r: Self)
        ensures
            r@ == 1,
    {
        RequestIds { next: 1 }
    }

    /// The next identity, until they are exhausted.
    pub fn take(&mut self) -> (r: Option<RequestId>)
        ensures
            old(self)@ == u64::MAX ==> r is None && final(self)@ == old(self)@,
            old(self)@ < u64::MAX ==> r is Some && r->Some_0@ == old(self)@ && final(self)@ == old(
                self,
            )@ + 1,
    {
        if self.next == u64::MAX {
            return None;
        }
        let request = RequestId(self.next);
        self.next = self.next + 1;
        Some(request)
    }
}

impl Default for RequestIds {
    fn default() -> (r: Self)
        ensures
            r@ == 1,
    {
        RequestIds::new()
    }
}

/// Bounds for waiting work and for terminal results that are still retained.
///
/// The count bound applies to every terminal entry. The byte bound is not here: it
/// belongs to the shared pool the runtime reserves from, so sibling runtimes cannot each
/// spend the same capacity. Rejections hold no bulk payload, so they are bounded by
/// [`Self::max_retained_results`] alone and stay deliverable while the pool is exhausted.
#[derive(Clone, Copy, Debug, PartialEq, Eq, Structural)]
pub struct BatchConfig {
    /// Requests that may wait for execution.
    pub max_waiting_requests: usize,
    /// Terminal entries that may be retained before the caller consumes them.
    pub max_retained_results: usize,
}

impl Default for BatchConfig {
    fn default() -> (r: Self)
        ensures
            r == (BatchConfig { max_waiting_requests: 1024, max_retained_results: 1024 }),
    {
        BatchConfig { max_waiting_requests: 1024, max_retained_results: 1024 }
    }
}

/// One request handed to an executor, with the reservation covering its storage.
///
/// The reservation is granted during preparation and moves to the executor at
/// submission. From then on the executor owns it: it attaches the charge to whatever
/// storage it materializes for that request, and releases it only when nothing can have
/// reached the device.
#[derive(Debug)]
pub struct Job<I> {
    pub request: RequestId,
    pub input: I,
    pub lease: PoolLease,
}

impl<I> Job<I> {
    #[must_use]
    pub fn request(&self) -> (r: RequestId)
        ensures
            r == self.request,
    {
        self.request
    }

    #[must_use]
    pub fn input(&self) -> (r: &I)
        ensures
            *r == self.input,
    {
        &self.input
    }

    /// The reservation this request was granted.
    #[must_use]
    pub fn lease(&self) -> (r: &PoolLease)
        ensures
            *r == self.lease,
    {
        &self.lease
    }

    /// Split into the request identity, its input and the reservation the executor now
    /// owns.
    #[must_use]
    pub fn into_parts(self) -> (r: (RequestId, I, PoolLease))
        ensures
            r == (self.request, self.input, self.lease),
    {
        (self.request, self.input, self.lease)
    }
}

/// One result handed back to the runtime, with the reservation covering its storage.
///
/// The executor returns the charge inside the same value that carries the result, so the
/// runtime never has to guess which reservation belongs to which output.
#[derive(Debug)]
pub struct JobOutput<O> {
    pub request: RequestId,
    pub output: O,
    pub lease: PoolLease,
}

impl<O> JobOutput<O> {
    #[must_use]
    pub fn new(request: RequestId, output: O, lease: PoolLease) -> (r: Self)
        ensures
            r == (JobOutput { request, output, lease }),
    {
        JobOutput { request, output, lease }
    }

    #[must_use]
    pub fn request(&self) -> (r: RequestId)
        ensures
            r == self.request,
    {
        self.request
    }

    #[must_use]
    pub fn output(&self) -> (r: &O)
        ensures
            *r == self.output,
    {
        &self.output
    }

    /// The reservation covering this result's storage.
    #[must_use]
    pub fn lease(&self) -> (r: &PoolLease)
        ensures
            *r == self.lease,
    {
        &self.lease
    }

    /// Split into the request identity, its result and the reservation that covers it.
    /// The two must stay together: releasing the lease while the result's storage is
    /// readable is what the pool's accounting must never allow.
    #[must_use]
    pub fn into_parts(self) -> (r: (RequestId, O, PoolLease))
        ensures
            r == (self.request, self.output, self.lease),
    {
        (self.request, self.output, self.lease)
    }
}

/// What the oldest compatible candidates should do next.
#[derive(Clone, Debug, PartialEq, Eq)]
pub enum BatchSelection<C> {
    /// Execute the oldest `items` candidates.
    Ready { items: usize },
    /// The oldest candidates are valid but cannot run yet.
    ///
    /// The queue is left untouched. This is temporary contention, not an executor
    /// invariant failure, and it must not be reported as an error.
    Blocked(C),
    /// The oldest candidate cannot execute under this executor's limits, and no amount
    /// of waiting changes that.
    ///
    /// The runtime fails only that request and keeps later work moving. FIFO order is
    /// preserved, so only the queue head can be rejected.
    Rejected(C),
}

/// Why the runtime stopped short of executing work.
///
/// Every variant names the condition that must change before a step can make progress.
#[derive(Clone, Debug, PartialEq, Eq)]
pub enum BlockReason<C> {
    /// Not even the head request fits the retained-result bound, so the caller must
    /// consume retained results before more work can run.
    RetainedResults,
    /// The shared pool cannot cover the head request while other leases hold capacity.
    Pool {
        /// Bytes the head request needs reserved before it can run.
        requested: u64,
        /// Bytes the pool had available when the reservation failed.
        available: u64,
    },
    /// The executor reports that its own resources are not available yet.
    Executor(C),
}

/// Why a request was refused before any work was submitted for it.
#[derive(Clone, Debug, PartialEq, Eq)]
pub enum Rejection<C> {
    /// The executor can never run this request under its own limits.
    Executor(C),
    /// This request's own retained output can never fit the shared pool, so releasing
    /// capacity can never admit it. Permanent request-local infeasibility, not
    /// backpressure.
    RetainedOutputTooLarge {
        /// Bytes the request needs reserved.
        requested: u64,
        /// Total bytes the pool can ever grant.
        capacity: u64,
    },
}

/// How one request ended.
#[derive(Clone, Debug, PartialEq, Eq)]
pub enum Terminal<O, C> {
    /// The request executed. Its output stays retained until consumed.
    Output(O),
    /// The request could not execute.
    Rejected(Rejection<C>),
    /// The request was cancelled, either while it was still waiting or after it had
    /// produced output the caller no longer wants. Nothing is retained.
    Cancelled,
}

/// One terminal entry awaiting consumption, in completion order.
#[derive(Debug)]
pub struct Completed<O, C> {
    pub request: RequestId,
    pub parameter_version: ParameterVersion,
    pub outcome: Terminal<O, C>,
    pub lease: Option<PoolLease>,
}

impl<O, C> Completed<O, C> {
    /// Bytes this entry keeps reserved.
    pub open spec fn spec_retained_bytes(&self) -> u64 {
        match self.lease {
            Some(lease) => lease@.bytes,
            None => 0,
        }
    }

    #[must_use]
    pub fn request(&self) -> (r: RequestId)
        ensures
            r == self.request,
    {
        self.request
    }

    #[must_use]
    pub fn parameter_version(&self) -> (r: ParameterVersion)
        ensures
            r == self.parameter_version,
    {
        self.parameter_version
    }

    #[must_use]
    pub fn outcome(&self) -> (r: &Terminal<O, C>)
        ensures
            *r == self.outcome,
    {
        &self.outcome
    }

    /// The outcome alone, with the charge that covered its storage given back to `pool`.
    #[must_use]
    pub fn into_outcome(self, pool: &mut BytePool) -> (r: Terminal<O, C>)
        requires
            match self.lease {
                Some(lease) => lease@.pool == old(pool)@.identity(),
                None => true,
            },
        ensures
            r == self.outcome,
            final(pool)@ == old(pool)@.released(self.spec_retained_bytes()),
    {
        if let Some(lease) = self.lease {
            pool.release(lease);
        }
        self.outcome
    }

    /// Split into the terminal outcome and the charge covering its storage.
    ///
    /// Handing the result to another owner means handing over the lease too. Rejections
    /// and cancellations carry no lease.
    #[must_use]
    pub fn into_parts(self) -> (r: (Terminal<O, C>, Option<PoolLease>))
        ensures
            r == (self.outcome, self.lease),
    {
        (self.outcome, self.lease)
    }

    /// The reservation covering this entry's storage until it is consumed.
    #[must_use]
    pub fn lease(&self) -> (r: Option<&PoolLease>)
        ensures
            match self.lease {
                Some(lease) => r == Some(&lease),
                None => r is None,
            },
    {
        self.lease.as_ref()
    }

    /// Identity of the allocation this entry holds, when it produced output.
    #[must_use]
    pub fn allocation(&self) -> (r: Option<AllocationId>)
        ensures
            match self.lease {
                Some(lease) => r is Some && r->Some_0@ == lease@.allocation,
                None => r is None,
            },
    {
        match &self.lease {
            Some(lease) => Some(lease.allocation()),
            None => None,
        }
    }

    /// Bytes this entry retains until the caller consumes it.
    ///
    /// Rejections and cancellations retain nothing and report zero.
    #[must_use]
    pub fn retained_bytes(&self) -> (r: u64)
        ensures
            r == self.spec_retained_bytes(),
    {
        match &self.lease {
            Some(lease) => lease.bytes(),
            None => 0,
        }
    }

    /// Whether this request was cancelled instead of finishing.
    #[must_use]
    pub fn is_cancelled(&self) -> (r: bool)
        ensures
            r == (self.outcome is Cancelled),
    {
        match &self.outcome {
            Terminal::Cancelled => true,
            _ => false,
        }
    }

    /// The completed output, when this request executed rather than failing.
    #[must_use]
    pub fn output(&self) -> (r: Option<&O>)
        ensures
            match self.outcome {
                Terminal::Output(output) => r == Some(&output),
                _ => r is None,
            },
    {
        match &self.outcome {
            Terminal::Output(output) => Some(output),
            Terminal::Rejected(_) => None,
            Terminal::Cancelled => None,
        }
    }
}

/// What one step did.
#[derive(Clone, Debug, PartialEq, Eq)]
pub enum StepOutcome<C> {
    /// No queued work.
    Idle,
    /// A batch executed and its results are retained until consumed.
    Executed { results: usize },
    /// Nothing executed; the reason names the wakeup condition.
    Blocked(BlockReason<C>),
    /// The head request was rejected, and its terminal entry was delivered.
    Rejected { request: RequestId },
    /// The head request was cancelled before it ran, and its terminal entry was
    /// delivered.
    Cancelled { request: RequestId },
}

/// How one cancellation ended.
#[derive(Clone, Copy, Debug, PartialEq, Eq, Structural)]
pub enum CancelOutcome {
    /// The request was still waiting; it will report cancellation rather than run. No
    /// reservation existed for it, so nothing was released.
    Queued,
    /// The request had ended. A retained result and the charge covering it went back to
    /// the executor, and the entry now reports cancellation.
    Discarded,
    /// No live request has this identity: it was never submitted, was already consumed,
    /// or was cancelled earlier.
    Unknown,
}

/// Why a batch could not be enqueued, and what the executor still owns.
///
/// The distinction is the point: it tells the caller whether device work may exist for a
/// batch whose results will never be delivered.
#[derive(Debug)]
pub enum EnqueueError<E> {
    /// Nothing reached the device. Every reservation the executor was handed is released
    /// and nothing needs retiring.
    Refused(E),
    /// A device-visible mutation happened before the failure, so some work may be in
    /// flight. The executor retains the storage and the reservations for everything it
    /// may have enqueued; only a proven completion may release them.
    Uncertain(E),
}

impl<E> EnqueueError<E> {
    /// The executor's own error, whichever ownership state it left behind.
    #[must_use]
    pub fn into_inner(self) -> (r: E)
        ensures
            match self {
                EnqueueError::Refused(error) => r == error,
                EnqueueError::Uncertain(error) => r == error,
            },
    {
        match self {
            EnqueueError::Refused(error) => error,
            EnqueueError::Uncertain(error) => error,
        }
    }
}

/// Why the runtime could not carry an operation out.
#[derive(Debug)]
pub enum RuntimeError<E> {
    InvalidConfig,
    WaitingCapacityExhausted,
    IdentityExhausted,
    ParameterVersionChanged { queued: ParameterVersion, current: ParameterVersion },
    MalformedBatchSelection { selected: usize, candidates: usize },
    /// The executor returned output that does not match the work it was given, so nothing
    /// can be committed. Its storage and charge were handed back to it.
    MalformedCompletion {
        /// Requests this call submitted.
        requests: Vec<RequestId>,
        /// Results the executor returned for them.
        returned: usize,
    },
    /// The executor refused the batch before any device access, so no result will be
    /// delivered and nothing is retained.
    Executor {
        /// Requests this call submitted.
        requests: Vec<RequestId>,
        source: E,
    },
    /// The executor failed after a device-visible mutation, so some work may be in
    /// flight. The executor retains ownership of everything it may have enqueued,
    /// together with those reservations; the runtime delivers nothing for these requests.
    Uncertain {
        /// Requests this call submitted.
        requests: Vec<RequestId>,
        source: E,
    },
    /// The shared byte pool is closed, so no new submission is accepted.
    PoolClosed,
}

/// Coarse execution boundary for non-autoregressive request batching. Concrete executors
/// own tensor shapes, padding or ragged layout, device buffers, and any model-specific
/// batch preparation.
///
/// The answers of the four queries are functions of the executor's own state and of the
/// question. What execution and retirement do is the executor's own affair: the two
/// relations only name it, so that a contract can say which work was handed over. A
/// verified implementation says here what it answers and what it does.
pub trait BatchExecutor: Sized {
    type Input;

    type Output;

    type Error;

    /// Why this executor cannot run a request, either now or under its own limits.
    type Constraint;

    /// The version that [`Self::parameter_version`] answers.
    open spec fn spec_parameter_version(&self) -> ParameterVersion {
        arbitrary()
    }

    /// The bound that [`Self::max_batch_items`] answers.
    open spec fn spec_max_batch_items(&self) -> usize {
        arbitrary()
    }

    /// The choice that [`Self::select_batch`] answers.
    open spec fn spec_select_batch(&self, candidates: Seq<Self::Input>) -> BatchSelection<
        Self::Constraint,
    > {
        arbitrary()
    }

    /// The bytes that [`Self::retained_bytes`] answers.
    open spec fn spec_retained_bytes(&self, input: Self::Input) -> u64 {
        arbitrary()
    }

    /// Whether [`Self::execute`] may answer the batch with this result, leaving behind this
    /// executor and this pool.
    open spec fn executes(
        &self,
        pool: PoolView,
        batch: Seq<Job<Self::Input>>,
        after: Self,
        pool_after: PoolView,
        result: Result<Vec<JobOutput<Self::Output>>, EnqueueError<Self::Error>>,
    ) -> bool {
        arbitrary()
    }

    /// Whether [`Self::retire`] may take the outputs back and leave behind this executor and
    /// this pool.
    open spec fn retires(
        &self,
        pool: PoolView,
        outputs: Seq<JobOutput<Self::Output>>,
        after: Self,
        pool_after: PoolView,
    ) -> bool {
        arbitrary()
    }

    fn parameter_version(&self) -> (r: ParameterVersion)
        ensures
            r == self.spec_parameter_version(),
    ;

    fn max_batch_items(&self) -> (r: usize)
        ensures
            r == self.spec_max_batch_items(),
    ;

    /// Choose what the oldest compatible candidates should do next.
    ///
    /// `candidates` contains at most [`Self::max_batch_items`] requests, all pinned to the
    /// executor's current parameter version. A model can select a shorter nonzero prefix
    /// when shapes, padding, workspace, or another concrete execution constraint makes
    /// the whole candidate set unsuitable.
    fn select_batch(&self, candidates: &[&Self::Input]) -> (r: BatchSelection<Self::Constraint>)
        ensures
            r == self.spec_select_batch(candidates@.unref()),
    ;

    /// Bytes this request's completed output will retain until the caller consumes it.
    ///
    /// The runtime reserves this amount before executing the batch, so under-reporting
    /// here is what allows the retained budget to be exceeded.
    fn retained_bytes(&self, input: &Self::Input) -> (r: u64)
        ensures
            r == self.spec_retained_bytes(*input),
    ;

    /// Enqueue one prepared batch and return its results.
    ///
    /// Each job carries the reservation covering that request's storage. The executor
    /// owns those reservations from this call on: it attaches each charge to the storage
    /// it materializes and returns the two together, or gives back to `pool` what provably
    /// never reached the device.
    ///
    /// # Errors
    /// The returned error must distinguish a refusal that never touched the device from
    /// work that may already be in flight.
    fn execute(&mut self, pool: &mut BytePool, batch: Vec<Job<Self::Input>>) -> (r: Result<
        Vec<JobOutput<Self::Output>>,
        EnqueueError<Self::Error>,
    >)
        ensures
            old(self).executes(old(pool)@, batch@, *final(self), final(pool)@, r),
    ;

    /// Take back output the runtime cannot commit.
    ///
    /// The executor owns the storage and the charge carried by every returned value
    /// again; it must keep both until completion is established, exactly as after a
    /// failed enqueue. Where it establishes completion at once, the charges go back to
    /// `pool`.
    fn retire(&mut self, pool: &mut BytePool, outputs: Vec<JobOutput<Self::Output>>)
        ensures
            old(self).retires(old(pool)@, outputs@, *final(self), final(pool)@),
    ;
}

} // verus!
