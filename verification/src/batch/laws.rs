//! What a batch runtime hands to its executor, and what it makes of the answers.

use crate::batch::executor::{
    BatchExecutor, BatchSelection, BlockReason, CancelOutcome, Completed, EnqueueError, Job,
    JobOutput, Rejection, RequestId, RuntimeError, StepOutcome, Terminal,
};
use crate::batch::runtime::{
    after_grants, answers, cancel_result, compatible, completed, execution, find_queued,
    find_terminal, grants, handed_over, law_reservation_takes_the_largest_prefix, lease_at,
    retained_sum, step_result, BatchView, Queued, Resolved,
};
use crate::foundation::parameter::ParameterVersion;
use crate::foundation::pool::PoolView;
use vstd::prelude::*;

verus! {

/// What is offered to an executor is the longest run from the head of the queue that the
/// executor can take at once and that holds neither a cancelled request nor one of another
/// parameter version: what stops it is the limit, the end of the queue or such a request.
pub proof fn law_candidates_are_the_longest_run<I>(
    queue: Seq<Queued<I>>,
    version: ParameterVersion,
    limit: nat,
)
    ensures
        ({
            let n = compatible(queue, version, limit) as int;
            &&& n <= limit
            &&& n <= queue.len()
            &&& forall|i: int|
                0 <= i < n ==> (#[trigger] queue[i]).parameter_version == version
                    && !queue[i].cancelled
            &&& n < limit && n < queue.len() ==> queue[n].parameter_version != version
                || queue[n].cancelled
        }),
    decreases limit,
{
    if !(limit == 0 || queue.len() == 0 || queue[0].parameter_version != version
        || queue[0].cancelled) {
        let rest = queue.drop_first();
        law_candidates_are_the_longest_run(rest, version, (limit - 1) as nat);
        let n = compatible(queue, version, limit) as int;
        assert forall|i: int| 0 <= i < n implies (#[trigger] queue[i]).parameter_version
            == version && !queue[i].cancelled by {
            if i > 0 {
                assert(queue[i] == rest[i - 1]);
            }
        }
        if n < limit && n < queue.len() {
            assert(queue[n] == rest[n - 1]);
        }
    }
}

/// The executor is asked about the inputs of exactly those requests, in their order, and
/// with its own version and limit.
pub proof fn law_candidates_are_the_head_inputs<E: BatchExecutor>(v: BatchView<E>, i: int)
    ensures
        v.candidates().len() == compatible(
            v.queue,
            v.executor.spec_parameter_version(),
            v.executor.spec_max_batch_items() as nat,
        ),
        0 <= i < v.candidates().len() ==> v.candidates()[i] == v.queue[i].input,
        v.selection() == v.executor.spec_select_batch(v.candidates()),
{
}

/// What the head of the queue comes to before anything runs, by what stands there: nothing
/// without requests; a cancelled head ends as such; a head of another version stops the
/// runtime; a head that can never run ends as rejected; a full table of results holds an end
/// back; and otherwise the executor's own answer counts.
pub proof fn law_what_becomes_of_the_head<E: BatchExecutor>(v: BatchView<E>, capacity: u64)
    ensures
        ({
            let full = v.terminal.len() >= v.config.max_retained_results;
            let r = v.resolution(capacity);
            &&& v.queue.len() == 0 ==> r == Ok::<_, RuntimeError<E::Error>>(
                Resolved::<E::Constraint>::Idle,
            )
            &&& v.queue.len() > 0 ==> {
                let head = v.queue[0];
                let current = v.executor.spec_parameter_version();
                let retained = v.executor.spec_retained_bytes(head.input);
                let runs = !head.cancelled && head.parameter_version == current;
                let never = retained > capacity || v.selection() is Rejected;
                &&& head.cancelled && !full ==> r == Ok::<_, RuntimeError<E::Error>>(
                    Resolved::<E::Constraint>::Cancelled { request: head.request },
                )
                &&& (head.cancelled || (runs && never)) && full ==> r == Ok::<
                    _,
                    RuntimeError<E::Error>,
                >(Resolved::<E::Constraint>::Blocked(BlockReason::RetainedResults))
                &&& !head.cancelled && head.parameter_version != current ==> r == Err::<
                    Resolved<E::Constraint>,
                    _,
                >(
                    RuntimeError::<E::Error>::ParameterVersionChanged {
                        queued: head.parameter_version,
                        current,
                    },
                )
                &&& runs && never && !full ==> r == Ok::<_, RuntimeError<E::Error>>(
                    Resolved::<E::Constraint>::Rejected { request: head.request },
                )
                &&& runs && !never ==> match v.selection() {
                    BatchSelection::Ready { items } => if 0 < items && items
                        <= v.candidates().len() {
                        r == Ok::<_, RuntimeError<E::Error>>(
                            Resolved::<E::Constraint>::Ready { items },
                        )
                    } else {
                        r is Err
                    },
                    BatchSelection::Blocked(constraint) => r == Ok::<_, RuntimeError<E::Error>>(
                        Resolved::<E::Constraint>::Blocked(BlockReason::Executor(constraint)),
                    ),
                    BatchSelection::Rejected(_) => false,
                }
            }
        }),
{
}

/// An end takes the head off the queue and reports it last, under its own identity and
/// version and with nothing retained. Why it ended is its own size where that is beyond the
/// pool, and the executor's reason otherwise.
pub proof fn law_ended_heads_are_reported<E: BatchExecutor>(v: BatchView<E>, capacity: u64)
    requires
        v.queue.len() > 0,
    ensures
        v.resolution(capacity) matches Ok(Resolved::Cancelled { request }) ==> {
            let after = v.resolved(capacity);
            &&& after.queue == v.queue.skip(1)
            &&& after.terminal.len() == v.terminal.len() + 1
            &&& after.terminal.take(v.terminal.len() as int) == v.terminal
            &&& after.terminal.last().request == v.queue[0].request
            &&& after.terminal.last().parameter_version == v.queue[0].parameter_version
            &&& after.terminal.last().outcome is Cancelled
            &&& after.terminal.last().lease is None
            &&& after.executor == v.executor
        },
        v.resolution(capacity) matches Ok(Resolved::Rejected { request }) ==> {
            let after = v.resolved(capacity);
            let retained = v.executor.spec_retained_bytes(v.queue[0].input);
            &&& after.queue == v.queue.skip(1)
            &&& after.terminal.len() == v.terminal.len() + 1
            &&& after.terminal.take(v.terminal.len() as int) == v.terminal
            &&& after.terminal.last().request == v.queue[0].request
            &&& after.terminal.last().parameter_version == v.queue[0].parameter_version
            &&& after.terminal.last().lease is None
            &&& after.executor == v.executor
            &&& retained > capacity ==> after.terminal.last().outcome == Terminal::<
                E::Output,
                E::Constraint,
            >::Rejected(Rejection::RetainedOutputTooLarge { requested: retained, capacity })
            &&& retained <= capacity ==> after.terminal.last().outcome == Terminal::<
                E::Output,
                E::Constraint,
            >::Rejected(Rejection::Executor(v.selection()->Rejected_0))
        },
{
    assert(v.queue.drop_first() =~= v.queue.skip(1));
    let ended = v.resolved(capacity).terminal;
    if v.resolution(capacity) is Ok {
        assert(ended.take(v.terminal.len() as int) =~= v.terminal);
    }
}

/// Bytes of the first `n` sizes.
pub open spec fn total(sizes: Seq<u64>, n: int) -> int
    decreases n,
{
    if n <= 0 {
        0
    } else {
        total(sizes, n - 1) + sizes[n - 1]
    }
}

proof fn lemma_after_grants(pool: PoolView, sizes: Seq<u64>, n: nat, most: nat)
    requires
        pool.wf(),
        n <= most <= sizes.len(),
        forall|k: int|
            0 <= k < most ==> (#[trigger] after_grants(pool, sizes, k as nat)).refusal(
                sizes[k],
            ) is None,
    ensures
        after_grants(pool, sizes, n).wf(),
        after_grants(pool, sizes, n).granted == pool.granted + total(sizes, n as int),
        after_grants(pool, sizes, n).capacity == pool.capacity,
        after_grants(pool, sizes, n).closed == pool.closed,
        after_grants(pool, sizes, n).readiness == pool.readiness,
    decreases n,
{
    if n > 0 {
        lemma_after_grants(pool, sizes, (n - 1) as nat, most);
        assert(after_grants(pool, sizes, (n - 1) as nat).refusal(sizes[n - 1]) is None);
    }
}

/// The pool grants as many requests from the head as its free bytes cover, each in full: what
/// is granted fits, and with the next request it would not. A closed pool grants none.
pub proof fn law_grants_use_the_free_bytes(pool: PoolView, sizes: Seq<u64>)
    requires
        pool.wf(),
    ensures
        ({
            let n = grants(pool, sizes);
            &&& n <= sizes.len()
            &&& n > 0 ==> !pool.closed
            &&& total(sizes, n as int) <= pool.capacity - pool.granted
            &&& n < sizes.len() && !pool.closed ==> total(sizes, n as int + 1) > pool.capacity
                - pool.granted
            &&& after_grants(pool, sizes, n).granted == pool.granted + total(sizes, n as int)
            &&& after_grants(pool, sizes, n).capacity == pool.capacity
        }),
{
    law_reservation_takes_the_largest_prefix(pool, sizes);
    let n = grants(pool, sizes);
    lemma_after_grants(pool, sizes, n, n);
    if n > 0 {
        assert(after_grants(pool, sizes, 0).refusal(sizes[0]) is None);
    }
}

/// How many of the selected requests may run is bounded by the free places among the retained
/// results, and by nothing else.
pub proof fn law_retained_results_bound_a_batch<E: BatchExecutor>(v: BatchView<E>, items: usize)
    requires
        v.wf(),
    ensures
        v.accepted(items) <= items,
        v.terminal.len() + v.accepted(items) <= v.config.max_retained_results,
        v.accepted(items) < items ==> v.terminal.len() + v.accepted(items)
            == v.config.max_retained_results,
        v.sizes(v.accepted(items)).len() == v.accepted(items),
        forall|i: int|
            0 <= i < v.accepted(items) ==> #[trigger] v.sizes(v.accepted(items))[i]
                == v.executor.spec_retained_bytes(v.queue[i].input),
{
}

/// A step that executes runs the head of the queue and as much of it as it can: it ends the
/// oldest requests, each with its own output and with a lease, and it stops short of what the
/// executor selected only where the retained results are full or where the free bytes of the
/// pool do not cover the next request as well.
pub proof fn law_steps_execute_as_much_as_fits<E: BatchExecutor>(
    before: BatchView<E>,
    pool: PoolView,
    after: BatchView<E>,
    pool_after: PoolView,
    results: usize,
)
    requires
        before.wf(),
        pool.wf(),
        before.queue.len() <= usize::MAX,
        step_result(
            before,
            pool,
            after,
            pool_after,
            Ok(StepOutcome::Executed { results }),
        ),
    ensures
        before.selection() matches BatchSelection::Ready { items } && {
            let n = results as int;
            let sizes = before.sizes(items as nat);
            &&& 0 < n <= items
            &&& items <= before.candidates().len()
            &&& after.queue == before.queue.skip(n)
            &&& after.terminal.len() == before.terminal.len() + n
            &&& after.config == before.config
            &&& forall|i: int|
                0 <= i < before.terminal.len() ==> #[trigger] after.terminal[i]
                    == before.terminal[i]
            &&& forall|i: int|
                0 <= i < n ==> {
                    let entry = #[trigger] after.terminal[before.terminal.len() + i];
                    &&& entry.request == before.queue[i].request
                    &&& entry.parameter_version == before.executor.spec_parameter_version()
                    &&& entry.outcome is Output
                    &&& entry.lease is Some
                }
            &&& total(sizes, n) <= pool.capacity - pool.granted
            &&& n < items ==> after.terminal.len() == before.config.max_retained_results || total(
                sizes,
                n + 1,
            ) > pool.capacity - pool.granted
        },
{
    law_what_becomes_of_the_head(before, pool.capacity);
    law_candidates_are_the_longest_run(
        before.queue,
        before.executor.spec_parameter_version(),
        before.executor.spec_max_batch_items() as nat,
    );
    let items = match before.resolution(pool.capacity) {
        Ok(Resolved::Ready { items }) => items,
        _ => 0,
    };
    let taken = before.sizes(before.accepted(items));
    let n = grants(pool, taken);
    law_retained_results_bound_a_batch(before, items);
    law_grants_use_the_free_bytes(pool, taken);
    let (jobs, middle, pool_middle, result) = choose|
        jobs: Seq<Job<E::Input>>,
        middle: E,
        pool_middle: PoolView,
        result: Result<Vec<JobOutput<E::Output>>, EnqueueError<E::Error>>,
    | #[trigger]
        execution(
            before,
            pool,
            n,
            jobs,
            middle,
            pool_middle,
            result,
            after,
            pool_after,
            Ok(StepOutcome::Executed { results }),
        );
    assert(results == n as usize);
    assert(n as usize == n);
    let sizes = before.sizes(items as nat);
    lemma_same_total(taken, sizes, n as int);
    if n < taken.len() {
        lemma_same_total(taken, sizes, n as int + 1);
    }
    let outputs = result->Ok_0@;
    assert forall|i: int| 0 <= i < n implies {
        let entry = #[trigger] after.terminal[before.terminal.len() + i];
        &&& entry.request == before.queue[i].request
        &&& entry.parameter_version == before.executor.spec_parameter_version()
        &&& entry.outcome is Output
        &&& entry.lease is Some
    } by {
        assert(outputs[i].request == before.head_requests(n)[i]);
        assert(after.terminal[before.terminal.len() + i] == completed::<
            E::Output,
            E::Constraint,
        >(before.executor.spec_parameter_version(), outputs)[i]);
    }
}

proof fn lemma_same_total(a: Seq<u64>, b: Seq<u64>, n: int)
    requires
        n <= a.len(),
        n <= b.len(),
        forall|i: int| 0 <= i < a.len() && i < b.len() ==> #[trigger] a[i] == b[i],
    ensures
        total(a, n) == total(b, n),
    decreases n,
{
    if n > 0 {
        lemma_same_total(a, b, n - 1);
        assert(a[n - 1] == b[n - 1]);
    }
}

/// The executor is handed the oldest requests, each with its own input and under a lease of
/// its own for exactly the bytes that its output will retain; no two leases are the same.
pub proof fn law_jobs_carry_their_own_leases<E: BatchExecutor>(
    before: BatchView<E>,
    pool: PoolView,
    n: nat,
    jobs: Seq<Job<E::Input>>,
    i: int,
    j: int,
)
    requires
        handed_over(before, pool, n, jobs),
        0 <= i < j < n,
        pool.next_allocation + n <= u64::MAX,
    ensures
        jobs.len() == n,
        jobs[i].request == before.queue[i].request,
        jobs[i].input == before.queue[i].input,
        jobs[i].lease@.pool == pool.identity(),
        jobs[i].lease@.bytes == before.executor.spec_retained_bytes(before.queue[i].input),
        jobs[i].lease@.allocation != jobs[j].lease@.allocation,
        jobs[i].lease@.allocation >= pool.next_allocation,
{
    assert(jobs[i].lease@ == lease_at(pool, before.sizes(n), i));
    assert(jobs[j].lease@ == lease_at(pool, before.sizes(n), j));
}

/// An answer belongs to a batch exactly where it has one output for each request, in order.
pub proof fn law_answers_follow_the_requests<O>(
    outputs: Seq<JobOutput<O>>,
    expected: Seq<RequestId>,
)
    ensures
        answers(outputs, expected) <==> outputs.map_values(
            |output: JobOutput<O>| output.request,
        ) == expected,
{
    let named = outputs.map_values(|output: JobOutput<O>| output.request);
    if answers(outputs, expected) {
        assert forall|i: int| 0 <= i < named.len() implies named[i] == expected[i] by {
            assert(outputs[i].request == expected[i]);
        }
        assert(named =~= expected);
    }
    if named == expected {
        assert forall|i: int| 0 <= i < outputs.len() implies (#[trigger] outputs[i]).request
            == expected[i] by {
            assert(named[i] == expected[i]);
        }
    }
}

/// A waiting request is found at the first place where it stands.
pub proof fn law_waiting_requests_are_found<I>(queue: Seq<Queued<I>>, request: RequestId, from: int)
    requires
        0 <= from <= queue.len(),
    ensures
        match find_queued(queue, request, from) {
            Some(at) => from <= at < queue.len() && queue[at].request == request && forall|j: int|
                from <= j < at ==> (#[trigger] queue[j]).request != request,
            None => forall|j: int|
                from <= j < queue.len() ==> (#[trigger] queue[j]).request != request,
        },
    decreases queue.len() - from,
{
    if from < queue.len() {
        law_waiting_requests_are_found(queue, request, from + 1);
    }
}

/// An ended request is found at the first place where it stands.
pub proof fn law_ended_requests_are_found<O, C>(
    terminal: Seq<Completed<O, C>>,
    request: RequestId,
    from: int,
)
    requires
        0 <= from <= terminal.len(),
    ensures
        match find_terminal(terminal, request, from) {
            Some(at) => from <= at < terminal.len() && terminal[at].request == request
                && forall|j: int| from <= j < at ==> (#[trigger] terminal[j]).request != request,
            None => forall|j: int|
                from <= j < terminal.len() ==> (#[trigger] terminal[j]).request != request,
        },
    decreases terminal.len() - from,
{
    if from < terminal.len() {
        law_ended_requests_are_found(terminal, request, from + 1);
    }
}

/// Cancelling a waiting request marks it where it stands and touches nothing else. One that
/// has ended is reported as cancelled instead, last and with nothing retained. A request that
/// is neither, or that was cancelled before, is unknown, and nothing changes.
pub proof fn law_cancellation<E: BatchExecutor>(
    before: BatchView<E>,
    pool: PoolView,
    request: RequestId,
    after: BatchView<E>,
    pool_after: PoolView,
    r: CancelOutcome,
    at: int,
)
    requires
        cancel_result(before, pool, request, after, pool_after, r),
    ensures
        r == CancelOutcome::Unknown ==> after == before && pool_after == pool,
        0 <= at < before.queue.len() && before.queue[at].request == request && (forall|j: int|
            0 <= j < at ==> (#[trigger] before.queue[j]).request != request) ==> {
            &&& before.queue[at].cancelled ==> r == CancelOutcome::Unknown
            &&& !before.queue[at].cancelled ==> {
                &&& r == CancelOutcome::Queued
                &&& pool_after == pool
                &&& after.terminal == before.terminal
                &&& after.executor == before.executor
                &&& after.queue.len() == before.queue.len()
                &&& after.queue[at].cancelled
                &&& after.queue[at].request == request
                &&& after.queue[at].input == before.queue[at].input
                &&& after.queue[at].parameter_version == before.queue[at].parameter_version
                &&& forall|j: int|
                    0 <= j < before.queue.len() && j != at ==> #[trigger] after.queue[j]
                        == before.queue[j]
            }
        },
        (forall|j: int| 0 <= j < before.queue.len() ==> (#[trigger] before.queue[j]).request
            != request) && 0 <= at < before.terminal.len() && before.terminal[at].request
            == request && (forall|j: int|
            0 <= j < at ==> (#[trigger] before.terminal[j]).request != request) ==> {
            &&& before.terminal[at].outcome is Cancelled ==> r == CancelOutcome::Unknown
            &&& !(before.terminal[at].outcome is Cancelled) ==> {
                &&& r == CancelOutcome::Discarded
                &&& after.queue == before.queue
                &&& after.terminal.len() == before.terminal.len()
                &&& after.terminal.drop_last() == before.terminal.remove(at)
                &&& after.terminal.last().request == request
                &&& after.terminal.last().outcome is Cancelled
                &&& after.terminal.last().lease is None
            }
        },
        (forall|j: int| 0 <= j < before.queue.len() ==> (#[trigger] before.queue[j]).request
            != request) && (forall|j: int|
            0 <= j < before.terminal.len() ==> (#[trigger] before.terminal[j]).request != request)
            ==> r == CancelOutcome::Unknown,
{
    law_waiting_requests_are_found(before.queue, request, 0);
    law_ended_requests_are_found(before.terminal, request, 0);
    let waiting = find_queued(before.queue, request, 0);
    let ended = find_terminal(before.terminal, request, 0);
    if let Some(i) = waiting {
        if 0 <= at < before.queue.len() && before.queue[at].request == request && (forall|j: int|
            0 <= j < at ==> (#[trigger] before.queue[j]).request != request) {
            assert(i == at);
        }
    } else if let Some(i) = ended {
        if 0 <= at < before.terminal.len() && before.terminal[at].request == request && (forall|
            j: int,
        | 0 <= j < at ==> (#[trigger] before.terminal[j]).request != request) {
            assert(i == at);
        }
        if !(before.terminal[i].outcome is Cancelled) {
            assert(after.terminal.drop_last() =~= before.terminal.remove(i));
        }
    }
}

/// Retained bytes are those of the entries' leases together.
pub proof fn law_retained_bytes_add_up<O, C>(entries: Seq<Completed<O, C>>, entry: Completed<O, C>)
    ensures
        retained_sum(Seq::<Completed<O, C>>::empty()) == 0,
        retained_sum(entries.push(entry)) == retained_sum(entries) + match entry.lease {
            Some(lease) => lease@.bytes as int,
            None => 0,
        },
{
    assert(entries.push(entry).drop_last() =~= entries);
}

/// A batch that fails in execution is not tried again: its requests leave the queue and are
/// named with the failure, oldest first, and nothing is reported for them. What the executor
/// refused, and what it is not sure of, are told apart, each with the executor's own reason.
pub proof fn law_failed_batches_leave_the_queue<E: BatchExecutor>(
    before: BatchView<E>,
    pool: PoolView,
    after: BatchView<E>,
    pool_after: PoolView,
    error: RuntimeError<E::Error>,
)
    requires
        before.wf(),
        step_result(before, pool, after, pool_after, Err(error)),
        error is Executor || error is Uncertain || error is MalformedCompletion,
    ensures
        ({
            let requests = match error {
                RuntimeError::Executor { requests, .. } => requests@,
                RuntimeError::Uncertain { requests, .. } => requests@,
                RuntimeError::MalformedCompletion { requests, .. } => requests@,
                _ => Seq::empty(),
            };
            &&& 0 < requests.len() <= before.queue.len()
            &&& after.queue == before.queue.skip(requests.len() as int)
            &&& after.terminal == before.terminal
            &&& after.config == before.config
            &&& forall|i: int|
                0 <= i < requests.len() ==> #[trigger] requests[i] == before.queue[i].request
        }),
{
    law_what_becomes_of_the_head(before, pool.capacity);
    law_candidates_are_the_longest_run(
        before.queue,
        before.executor.spec_parameter_version(),
        before.executor.spec_max_batch_items() as nat,
    );
    let items = match before.resolution(pool.capacity) {
        Ok(Resolved::Ready { items }) => items,
        _ => 0,
    };
    law_retained_results_bound_a_batch(before, items);
    let sizes = before.sizes(before.accepted(items));
    law_reservation_takes_the_largest_prefix(pool, sizes);
    let n = grants(pool, sizes);
    assert(n > 0);
    let (jobs, middle, pool_middle, result) = choose|
        jobs: Seq<Job<E::Input>>,
        middle: E,
        pool_middle: PoolView,
        result: Result<Vec<JobOutput<E::Output>>, EnqueueError<E::Error>>,
    | #[trigger]
        execution(
            before,
            pool,
            n,
            jobs,
            middle,
            pool_middle,
            result,
            after,
            pool_after,
            Err(error),
        );
    assert(before.head_requests(n).len() == n);
}

/// A step that waits for the pool says what the head needs and what is free, and it waits
/// only where that is too little. A closed pool is an error instead.
pub proof fn law_steps_wait_for_free_bytes<E: BatchExecutor>(
    before: BatchView<E>,
    pool: PoolView,
    after: BatchView<E>,
    pool_after: PoolView,
    requested: u64,
    available: u64,
)
    requires
        before.wf(),
        pool.wf(),
        step_result(
            before,
            pool,
            after,
            pool_after,
            Ok(StepOutcome::Blocked(BlockReason::Pool { requested, available })),
        ),
    ensures
        before.queue.len() > 0,
        requested == before.executor.spec_retained_bytes(before.queue[0].input),
        available == pool.capacity - pool.granted,
        requested > available,
        requested <= pool.capacity,
        !pool.closed,
        after == before,
        pool_after == pool,
{
    law_what_becomes_of_the_head(before, pool.capacity);
    let items = match before.resolution(pool.capacity) {
        Ok(Resolved::Ready { items }) => items,
        _ => 0,
    };
    law_retained_results_bound_a_batch(before, items);
    let sizes = before.sizes(before.accepted(items));
    let n = grants(pool, sizes);
    if n > 0 {
        let (jobs, middle, pool_middle, result) = choose|
            jobs: Seq<Job<E::Input>>,
            middle: E,
            pool_middle: PoolView,
            result: Result<Vec<JobOutput<E::Output>>, EnqueueError<E::Error>>,
        | #[trigger]
            execution(
                before,
                pool,
                n,
                jobs,
                middle,
                pool_middle,
                result,
                after,
                pool_after,
                Ok(StepOutcome::Blocked(BlockReason::Pool { requested, available })),
            );
        assert(false);
    }
}

} // verus!
