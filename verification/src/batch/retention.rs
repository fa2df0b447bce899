//! What a runtime's retained results hold of the shared pool.
//!
//! A retained result keeps the charge that was reserved for it, so the bytes that a runtime
//! reports as retained are part of what the pool has granted, for as long as nobody gives a
//! retained lease back behind the runtime's back.

use crate::batch::executor::{
    BatchExecutor, CancelOutcome, Completed, EnqueueError, Job, JobOutput, RequestId,
    RuntimeError, StepOutcome,
};
use crate::batch::runtime::{
    after_grants, answers, cancel_result, completed, execution, find_terminal, grants,
    law_reservation_takes_the_largest_prefix, lease_at, lemma_after_grants_next,
    lemma_after_grants_prefix, retained_sum, step_result, BatchView, Resolved,
};
use crate::foundation::parameter::ParameterVersion;
use crate::foundation::pool::{
    charges, history, lemma_charges_nonnegative, lemma_charges_remove,
    lemma_history_keeps_balance, lemma_operations_keep_balance, LeaseView, Ledger, PoolOp,
    PoolView,
};
use vstd::multiset::Multiset;
use vstd::prelude::*;

verus! {

/// The leases that entries keep, oldest first.
pub open spec fn retained_leases<O, C>(entries: Seq<Completed<O, C>>) -> Seq<LeaseView>
    decreases entries.len(),
{
    if entries.len() == 0 {
        Seq::empty()
    } else {
        let earlier = retained_leases(entries.drop_last());
        match entries.last().lease {
            Some(lease) => earlier.push(lease@),
            None => earlier,
        }
    }
}

/// A runtime and the pool it draws on, with every lease of that pool that is live.
#[verifier::ext_equal]
pub struct Accounts<E: BatchExecutor> {
    pub runtime: BatchView<E>,
    pub ledger: Ledger,
}

impl<E: BatchExecutor> Accounts<E> {
    /// The leases that the runtime retains.
    pub open spec fn retained(self) -> Multiset<LeaseView> {
        retained_leases(self.runtime.terminal).to_multiset()
    }

    /// Whether the account is the sum of the live leases, and the retained ones are among
    /// them.
    pub open spec fn covered(self) -> bool {
        &&& self.ledger.balanced()
        &&& self.retained().subset_of(self.ledger.live.to_multiset())
    }
}

/// Whether operations neither give back nor shrink any of these leases.
pub open spec fn spares(ledger: Ledger, ops: Seq<PoolOp>, kept: Multiset<LeaseView>) -> bool
    decreases ops.len(),
{
    ops.len() > 0 ==> {
        let live = history(ledger, ops.drop_last()).live;
        &&& spares(ledger, ops.drop_last(), kept)
        &&& match ops.last() {
            PoolOp::Release(i) => 0 <= i < live.len() ==> kept.subset_of(
                live.remove(i).to_multiset(),
            ),
            PoolOp::Shrink(i, _) => 0 <= i < live.len() ==> kept.subset_of(
                live.remove(i).to_multiset(),
            ),
            _ => true,
        }
    }
}

/// Whether two pools are one pool with the same account, whoever waits for it.
pub open spec fn same_account(a: PoolView, b: PoolView) -> bool {
    &&& a.identity() == b.identity()
    &&& a.capacity == b.capacity
    &&& a.granted == b.granted
}

/// Whether a ledger comes from another by operations that spare these leases.
pub open spec fn managed(before: Ledger, after: Ledger, kept: Multiset<LeaseView>) -> bool {
    exists|ops: Seq<PoolOp>|
        {
            &&& #[trigger] spares(before, ops, kept)
            &&& after.live == history(before, ops).live
            &&& same_account(after.pool, history(before, ops).pool)
        }
}

/// How many requests a step hands to the executor.
pub open spec fn handed<E: BatchExecutor>(v: BatchView<E>, pool: PoolView) -> nat {
    match v.resolution(pool.capacity) {
        Ok(Resolved::Ready { items }) => if v.terminal_full() {
            0
        } else {
            grants(pool, v.sizes(v.accepted(items)))
        },
        _ => 0,
    }
}

/// The ledger after the first `n` reservations were granted.
pub open spec fn charged(ledger: Ledger, sizes: Seq<u64>, n: nat) -> Ledger {
    Ledger {
        pool: after_grants(ledger.pool, sizes, n),
        live: ledger.live + Seq::new(n, |i: int| lease_at(ledger.pool, sizes, i)),
    }
}

/// Whether each result that a step retains keeps the lease that was reserved for it.
pub open spec fn own_leases<E: BatchExecutor>(
    before: BatchView<E>,
    pool: PoolView,
    after: BatchView<E>,
) -> bool {
    let sizes = before.sizes(handed(before, pool));
    forall|i: int|
        before.terminal.len() <= i < after.terminal.len() ==> match (
        #[trigger] after.terminal[i]).lease {
            Some(lease) => lease@ == lease_at(pool, sizes, i - before.terminal.len()),
            None => true,
        }
}

/// Whether one step leads from one state to another, with an executor that hands each
/// job's own lease back with its output and gives back no lease that the runtime retains.
pub open spec fn stepped<E: BatchExecutor>(before: Accounts<E>, after: Accounts<E>) -> bool {
    let n = handed(before.runtime, before.ledger.pool);
    &&& before.ledger.pool.next_allocation + n <= u64::MAX
    &&& exists|r: Result<StepOutcome<E::Constraint>, RuntimeError<E::Error>>| #[trigger]
        step_result(before.runtime, before.ledger.pool, after.runtime, after.ledger.pool, r)
    &&& own_leases(before.runtime, before.ledger.pool, after.runtime)
    &&& managed(
        charged(before.ledger, before.runtime.sizes(n), n),
        after.ledger,
        after.retained(),
    )
}

/// Whether a cancellation leads from one state to another, with an executor that gives back
/// no lease that the runtime still retains.
pub open spec fn cancelled<E: BatchExecutor>(before: Accounts<E>, after: Accounts<E>) -> bool {
    &&& exists|request: RequestId, r: CancelOutcome| #[trigger]
        cancel_result(
            before.runtime,
            before.ledger.pool,
            request,
            after.runtime,
            after.ledger.pool,
            r,
        )
    &&& managed(before.ledger, after.ledger, after.retained())
}

/// Whether consuming the oldest entry leads from one state to another. The pool is not
/// involved: the charge leaves with the entry.
pub open spec fn popped<E: BatchExecutor>(before: Accounts<E>, after: Accounts<E>) -> bool {
    &&& before.runtime.terminal.len() > 0
    &&& after.runtime == (BatchView {
        terminal: before.runtime.terminal.drop_first(),
        ..before.runtime
    })
    &&& after.ledger == before.ledger
}

/// Whether something else leads from one state to another: a submission, a change of the
/// executor, or what other owners of the pool do with leases of their own.
pub open spec fn elsewhere<E: BatchExecutor>(before: Accounts<E>, after: Accounts<E>) -> bool {
    &&& after.runtime.terminal == before.runtime.terminal
    &&& managed(before.ledger, after.ledger, before.retained())
}

/// Whether one operation leads from one state to another.
pub open spec fn evolves<E: BatchExecutor>(before: Accounts<E>, after: Accounts<E>) -> bool {
    ||| stepped(before, after)
    ||| cancelled(before, after)
    ||| popped(before, after)
    ||| elsewhere(before, after)
}

proof fn lemma_charges_of_part(part: Seq<LeaseView>, whole: Seq<LeaseView>)
    requires
        part.to_multiset().subset_of(whole.to_multiset()),
    ensures
        charges(part) <= charges(whole),
    decreases part.len(),
{
    broadcast use vstd::seq_lib::group_to_multiset_ensures;

    if part.len() == 0 {
        lemma_charges_nonnegative(whole);
    } else {
        let lease = part.last();
        let last = part.len() - 1;
        assert(part.to_multiset().count(lease) > 0) by {
            assert(part[last] == lease);
            assert(part.contains(lease));
        }
        assert(whole.to_multiset().count(lease) > 0);
        assert(whole.contains(lease));
        let j = choose|j: int| 0 <= j < whole.len() && whole[j] == lease;
        assert(part.remove(last) =~= part.drop_last());
        assert(part.remove(last).to_multiset() =~= part.to_multiset().remove(lease));
        assert(whole.remove(j).to_multiset() =~= whole.to_multiset().remove(lease));
        assert(part.drop_last().to_multiset().subset_of(whole.remove(j).to_multiset()));
        lemma_charges_of_part(part.drop_last(), whole.remove(j));
        lemma_charges_remove(whole, j);
    }
}

proof fn lemma_retained_charges<O, C>(entries: Seq<Completed<O, C>>)
    ensures
        retained_sum(entries) == charges(retained_leases(entries)),
    decreases entries.len(),
{
    if entries.len() > 0 {
        let earlier = retained_leases(entries.drop_last());
        lemma_retained_charges(entries.drop_last());
        match entries.last().lease {
            Some(lease) => {
                assert(earlier.push(lease@).drop_last() =~= earlier);
            },
            None => {},
        }
    }
}

proof fn lemma_retained_concat<O, C>(a: Seq<Completed<O, C>>, b: Seq<Completed<O, C>>)
    ensures
        retained_leases(a + b) == retained_leases(a) + retained_leases(b),
    decreases b.len(),
{
    if b.len() == 0 {
        assert(a + b =~= a);
    } else {
        lemma_retained_concat(a, b.drop_last());
        assert((a + b).drop_last() =~= a + b.drop_last());
    }
    assert(retained_leases(a + b) =~= retained_leases(a) + retained_leases(b));
}

/// Taking an entry out takes out its lease, where it has one.
proof fn lemma_retained_remove<O, C>(entries: Seq<Completed<O, C>>, j: int)
    requires
        0 <= j < entries.len(),
    ensures
        retained_leases(entries.remove(j)).to_multiset().subset_of(
            retained_leases(entries).to_multiset(),
        ),
        retained_sum(entries.remove(j)) == retained_sum(entries)
            - entries[j].spec_retained_bytes(),
    decreases entries.len(),
{
    broadcast use vstd::seq_lib::group_to_multiset_ensures;

    if j == entries.len() - 1 {
        assert(entries.remove(j) =~= entries.drop_last());
    } else {
        let rest = entries.drop_last();
        lemma_retained_remove(rest, j);
        assert(entries.remove(j).drop_last() =~= rest.remove(j));
        assert(entries.remove(j).last() == entries.last());
    }
}

/// The entries of outputs keep the leases of the outputs.
proof fn lemma_retained_outputs<O, C>(version: ParameterVersion, outputs: Seq<JobOutput<O>>)
    ensures
        retained_leases(completed::<O, C>(version, outputs)) == Seq::new(
            outputs.len(),
            |i: int| outputs[i].lease@,
        ),
    decreases outputs.len(),
{
    let entries = completed::<O, C>(version, outputs);
    let leases = Seq::new(outputs.len(), |i: int| outputs[i].lease@);
    if outputs.len() > 0 {
        let earlier = outputs.drop_last();
        lemma_retained_outputs::<O, C>(version, earlier);
        assert(entries.drop_last() =~= completed::<O, C>(version, earlier));
        assert(entries.last().lease == Some(outputs.last().lease));
    }
    assert(retained_leases(entries) =~= leases);
}

/// Leases that operations spare stay live.
proof fn lemma_spared(ledger: Ledger, ops: Seq<PoolOp>, kept: Multiset<LeaseView>)
    requires
        spares(ledger, ops, kept),
        kept.subset_of(ledger.live.to_multiset()),
    ensures
        kept.subset_of(history(ledger, ops).live.to_multiset()),
    decreases ops.len(),
{
    broadcast use vstd::seq_lib::group_to_multiset_ensures;

    if ops.len() > 0 {
        let middle = history(ledger, ops.drop_last());
        let live = middle.live;
        lemma_spared(ledger, ops.drop_last(), kept);
        match ops.last() {
            PoolOp::Reserve(bytes) => {
                let lease = middle.pool.granted_lease(bytes);
                assert(live.push(lease).to_multiset() =~= live.to_multiset().insert(lease));
            },
            PoolOp::Shrink(i, bytes) => {
                if 0 <= i < live.len() {
                    let lease = LeaseView { bytes, ..live[i] };
                    let shrunk = live.update(i, lease);
                    assert(shrunk.remove(i) =~= live.remove(i));
                    assert(shrunk.remove(i).to_multiset() =~= shrunk.to_multiset().remove(lease));
                }
            },
            _ => {},
        }
    }
}

/// What others do with leases of their own keeps a covered runtime covered.
proof fn lemma_managed(before: Ledger, after: Ledger, kept: Multiset<LeaseView>)
    requires
        before.balanced(),
        kept.subset_of(before.live.to_multiset()),
        managed(before, after, kept),
    ensures
        after.balanced(),
        kept.subset_of(after.live.to_multiset()),
{
    let ops = choose|ops: Seq<PoolOp>|
        {
            &&& #[trigger] spares(before, ops, kept)
            &&& after.live == history(before, ops).live
            &&& same_account(after.pool, history(before, ops).pool)
        };
    lemma_spared(before, ops, kept);
    lemma_history_keeps_balance(before, ops);
}

/// Granting a prefix that the pool covers keeps its account balanced.
proof fn lemma_charged(ledger: Ledger, sizes: Seq<u64>, n: nat)
    requires
        ledger.balanced(),
        n <= sizes.len(),
        ledger.pool.next_allocation + n <= u64::MAX,
        forall|k: int|
            0 <= k < n ==> (#[trigger] after_grants(ledger.pool, sizes, k as nat)).refusal(
                sizes[k],
            ) is None,
    ensures
        charged(ledger, sizes, n).balanced(),
        charged(ledger, sizes, n).pool.granted == ledger.pool.granted + charges(
            Seq::new(n, |i: int| lease_at(ledger.pool, sizes, i)),
        ),
    decreases n,
{
    let leases = Seq::new(n, |i: int| lease_at(ledger.pool, sizes, i));
    if n == 0 {
        assert(charged(ledger, sizes, n).live =~= ledger.live);
    } else {
        let m = (n - 1) as nat;
        let earlier = charged(ledger, sizes, m);
        let prefix = sizes.take(n as int);
        lemma_charged(ledger, sizes, m);
        lemma_after_grants_prefix(ledger.pool, sizes, prefix, m);
        lemma_after_grants_next(ledger.pool, prefix, m);
        assert(earlier.pool.refusal(sizes[n - 1]) is None);
        let next = earlier.applied(PoolOp::Reserve(sizes[n - 1]));
        lemma_operations_keep_balance(earlier, PoolOp::Reserve(sizes[n - 1]));
        assert(next.live =~= charged(ledger, sizes, n).live);
        assert(leases.drop_last() =~= Seq::new(m, |i: int| lease_at(ledger.pool, sizes, i)));
    }
}

proof fn lemma_found<O, C>(terminal: Seq<Completed<O, C>>, request: RequestId, i: int)
    ensures
        match find_terminal(terminal, request, i) {
            Some(j) => i <= j < terminal.len() && 0 <= j,
            None => true,
        },
    decreases terminal.len() - i,
{
    if 0 <= i < terminal.len() && terminal[i].request != request {
        lemma_found(terminal, request, i + 1);
    }
}

/// What a step retains was retained before, or is a lease that it reserved.
proof fn lemma_step_retains<E: BatchExecutor>(before: Accounts<E>, after: Accounts<E>)
    requires
        before.covered(),
        stepped(before, after),
    ensures
        ({
            let n = handed(before.runtime, before.ledger.pool);
            let middle = charged(before.ledger, before.runtime.sizes(n), n);
            &&& middle.balanced()
            &&& after.retained().subset_of(middle.live.to_multiset())
            &&& n > 0 && after.runtime.terminal.len() > before.runtime.terminal.len() ==> charges(
                retained_leases(after.runtime.terminal),
            ) - charges(retained_leases(before.runtime.terminal)) == middle.pool.granted
                - before.ledger.pool.granted
        }),
{
    let v = before.runtime;
    let pool = before.ledger.pool;
    let n = handed(v, pool);
    let sizes = v.sizes(n);
    let leases = Seq::new(n, |i: int| lease_at(pool, sizes, i));
    let old_leases = retained_leases(v.terminal);
    let live = before.ledger.live;
    let r = choose|r: Result<StepOutcome<E::Constraint>, RuntimeError<E::Error>>| #[trigger]
        step_result(v, pool, after.runtime, after.ledger.pool, r);
    vstd::seq_lib::lemma_multiset_commutative(live, leases);
    vstd::seq_lib::lemma_multiset_commutative(old_leases, leases);
    assert(charged(before.ledger, sizes, n).live == live + leases);
    if n > 0 {
        let items = v.resolution(pool.capacity)->Ok_0->items;
        let all = v.sizes(v.accepted(items));
        law_reservation_takes_the_largest_prefix(pool, all);
        assert forall|k: int| 0 <= k < n implies (#[trigger] after_grants(
            pool,
            sizes,
            k as nat,
        )).refusal(sizes[k]) is None by {
            lemma_after_grants_prefix(pool, all, sizes, k as nat);
            assert(after_grants(pool, all, k as nat).refusal(all[k]) is None);
        }
        lemma_charged(before.ledger, sizes, n);
        let (jobs, middle, pool_middle, result) = choose|
            jobs: Seq<Job<E::Input>>,
            middle: E,
            pool_middle: PoolView,
            result: Result<Vec<JobOutput<E::Output>>, EnqueueError<E::Error>>,
        | #[trigger]
            execution(
                v,
                pool,
                n,
                jobs,
                middle,
                pool_middle,
                result,
                after.runtime,
                after.ledger.pool,
                r,
            );
        if result is Ok && answers(result->Ok_0@, v.head_requests(n)) {
            let outputs = result->Ok_0@;
            let version = v.executor.spec_parameter_version();
            let entries = completed::<E::Output, E::Constraint>(version, outputs);
            lemma_retained_concat(v.terminal, entries);
            lemma_retained_outputs::<E::Output, E::Constraint>(version, outputs);
            assert forall|i: int| 0 <= i < n implies (#[trigger] outputs[i]).lease@ == leases[i] by {
                assert(after.runtime.terminal[v.terminal.len() + i] == entries[i]);
            }
            assert(retained_leases(entries) =~= leases);
            lemma_charges_concat(old_leases, leases);
        }
    } else {
        lemma_charged(before.ledger, sizes, n);
        assert(leases =~= Seq::empty());
        if after.runtime.terminal != v.terminal {
            assert(after.runtime.terminal.drop_last() =~= v.terminal);
        }
    }
}

proof fn lemma_evolution_keeps_cover<E: BatchExecutor>(before: Accounts<E>, after: Accounts<E>)
    requires
        before.covered(),
        evolves(before, after),
    ensures
        after.covered(),
{
    if stepped(before, after) {
        let n = handed(before.runtime, before.ledger.pool);
        lemma_step_retains(before, after);
        lemma_managed(
            charged(before.ledger, before.runtime.sizes(n), n),
            after.ledger,
            after.retained(),
        );
    } else if cancelled(before, after) {
        let (request, r) = choose|request: RequestId, r: CancelOutcome| #[trigger]
            cancel_result(
                before.runtime,
                before.ledger.pool,
                request,
                after.runtime,
                after.ledger.pool,
                r,
            );
        lemma_found(before.runtime.terminal, request, 0);
        match find_terminal(before.runtime.terminal, request, 0) {
            Some(j) => {
                lemma_retained_remove(before.runtime.terminal, j);
                if after.runtime.terminal != before.runtime.terminal {
                    assert(after.runtime.terminal.drop_last() =~= before.runtime.terminal.remove(
                        j,
                    ));
                }
            },
            None => {},
        }
        lemma_managed(before.ledger, after.ledger, after.retained());
    } else if popped(before, after) {
        assert(before.runtime.terminal.remove(0) =~= before.runtime.terminal.drop_first());
        lemma_retained_remove(before.runtime.terminal, 0);
    } else {
        lemma_managed(before.ledger, after.ledger, before.retained());
    }
}

/// The bytes that a runtime retains are part of what its pool has granted, after any
/// sequence of submissions, steps, cancellations and consumed results, and whatever other
/// owners of the pool do, as long as each job's own lease comes back with its output and
/// nobody gives back a lease that the runtime retains.
pub proof fn law_retained_bytes_are_granted<E: BatchExecutor>(trace: Seq<Accounts<E>>, i: int)
    requires
        0 <= i < trace.len(),
        trace[0].runtime.terminal.len() == 0,
        trace[0].ledger.balanced(),
        forall|k: int| 0 <= k < trace.len() - 1 ==> evolves(#[trigger] trace[k], trace[k + 1]),
    ensures
        trace[i].covered(),
        retained_sum(trace[i].runtime.terminal) <= trace[i].ledger.pool.granted,
    decreases i,
{
    if i == 0 {
        assert(trace[0].retained() =~= Multiset::empty()) by {
            broadcast use vstd::seq_lib::group_to_multiset_ensures;

            assert(retained_leases(trace[0].runtime.terminal) =~= Seq::empty());
        }
    } else {
        law_retained_bytes_are_granted(trace, i - 1);
        assert(evolves(trace[i - 1], trace[i]));
        lemma_evolution_keeps_cover(trace[i - 1], trace[i]);
    }
    lemma_retained_charges(trace[i].runtime.terminal);
    lemma_charges_of_part(retained_leases(trace[i].runtime.terminal), trace[i].ledger.live);
}

/// Runtimes that share a pool share its bytes: what two of them retain together is part of
/// what the pool has granted, where their leases are distinct live ones.
pub proof fn law_siblings_share_the_pool<E: BatchExecutor, F: BatchExecutor>(
    a: BatchView<E>,
    b: BatchView<F>,
    ledger: Ledger,
)
    requires
        ledger.balanced(),
        (retained_leases(a.terminal) + retained_leases(b.terminal)).to_multiset().subset_of(
            ledger.live.to_multiset(),
        ),
    ensures
        retained_sum(a.terminal) + retained_sum(b.terminal) <= ledger.pool.granted,
{
    let x = retained_leases(a.terminal);
    let y = retained_leases(b.terminal);
    lemma_retained_charges(a.terminal);
    lemma_retained_charges(b.terminal);
    lemma_charges_of_part(x + y, ledger.live);
    lemma_charges_concat(x, y);
}

proof fn lemma_charges_concat(a: Seq<LeaseView>, b: Seq<LeaseView>)
    ensures
        charges(a + b) == charges(a) + charges(b),
    decreases b.len(),
{
    if b.len() == 0 {
        assert(a + b =~= a);
    } else {
        lemma_charges_concat(a, b.drop_last());
        assert((a + b).drop_last() =~= a + b.drop_last());
    }
}

/// Consuming an entry lowers what the runtime retains by exactly what that entry keeps;
/// an entry without output keeps nothing.
pub proof fn law_consumed_results_keep_their_charge<E: BatchExecutor>(v: BatchView<E>)
    requires
        v.wf(),
        v.terminal.len() > 0,
    ensures
        retained_sum(v.terminal.drop_first()) == retained_sum(v.terminal)
            - v.terminal[0].spec_retained_bytes(),
        !(v.terminal[0].outcome is Output) ==> v.terminal[0].spec_retained_bytes() == 0,
{
    assert(v.terminal.remove(0) =~= v.terminal.drop_first());
    lemma_retained_remove(v.terminal, 0);
}

/// Results that are retained with the leases reserved for them raise what the runtime
/// retains by exactly what the reservations took from the pool.
pub proof fn law_executed_results_retain_their_reservations<E: BatchExecutor>(
    before: Accounts<E>,
    after: Accounts<E>,
)
    requires
        before.covered(),
        stepped(before, after),
        handed(before.runtime, before.ledger.pool) > 0,
        after.runtime.terminal.len() > before.runtime.terminal.len(),
    ensures
        ({
            let n = handed(before.runtime, before.ledger.pool);
            retained_sum(after.runtime.terminal) - retained_sum(before.runtime.terminal)
                == after_grants(before.ledger.pool, before.runtime.sizes(n), n).granted
                - before.ledger.pool.granted
        }),
{
    lemma_step_retains(before, after);
    lemma_retained_charges(before.runtime.terminal);
    lemma_retained_charges(after.runtime.terminal);
}

} // verus!
