//! Shared physical-pool accounting.
//!
//! One authority grants reservations for each shared physical pool. A reservation is
//! an owning, non-duplicable lease: moving it between owners does not reserve again,
//! and physical storage plus its charge stay together until safe reuse. A backend that
//! materializes device memory for a lease keeps the two in one owner, and gives the
//! lease back with [`BytePool::release`] when the storage may be reused.
//!
//! Capacity readiness uses the same registration and optional wake transport as other
//! resource conditions. Register before checking capacity, then arm before parking;
//! releases and closure publish after the accounting has changed.

use crate::foundation::readiness::{
    Readiness, ReadinessView, ReadinessWait, ReadinessWaitView, SourceId,
};
use vstd::prelude::*;

verus! {

/// Identity of one granted allocation.
///
/// A lease carries this so a later compatibility check can tell "the same allocation"
/// from "the same byte count". It is unique per grant; a released allocation is never
/// reissued under the same identity.
#[derive(Clone, Copy, Debug, Hash, PartialEq, Eq, PartialOrd, Ord, Structural)]
pub struct AllocationId(u64);

impl View for AllocationId {
    type V = u64;

    closed spec fn view(&self) -> u64 {
        self.0
    }
}

impl AllocationId {
    #[must_use]
    pub fn get(self) -> (r: u64)
        ensures
            r == self@,
    {
        self.0
    }
}

/// Why a reservation could not be granted.
#[derive(Clone, Copy, Debug, PartialEq, Eq, Structural)]
pub enum ReserveError {
    /// The pool can grant this amount, but not while other leases are alive.
    /// Register before attempting and retry after readiness changes; this is
    /// ordinary backpressure, not a request defect.
    Exhausted {
        /// Bytes the caller asked for.
        requested: u64,
        /// Bytes currently available.
        available: u64,
    },
    /// The request can never be granted by this pool, whatever is released.
    /// Permanent request-local infeasibility, not a capacity wait.
    TooLarge {
        /// Bytes the caller asked for.
        requested: u64,
        /// Bytes this pool can ever grant.
        capacity: u64,
    },
    /// The pool is closed; no new reservation is granted.
    Closed,
}

/// What a pool holds.
#[verifier::ext_equal]
pub struct PoolView {
    pub capacity: u64,
    pub granted: u64,
    pub next_allocation: u64,
    pub closed: bool,
    pub readiness: ReadinessView,
}

/// What a lease holds: the pool that granted it, its identity there, and its bytes.
#[verifier::ext_equal]
pub struct LeaseView {
    pub pool: u64,
    pub allocation: u64,
    pub bytes: u64,
}

impl PoolView {
    /// The pool's identity: that of its publication source.
    pub open spec fn identity(self) -> u64 {
        self.readiness.source
    }

    /// The pool never grants more than it has.
    pub open spec fn wf(self) -> bool {
        self.granted <= self.capacity
    }

    /// Bytes not covered by a live lease.
    pub open spec fn available(self) -> u64 {
        (self.capacity - self.granted) as u64
    }

    /// Why a reservation of `bytes` is refused now, if it is.
    pub open spec fn refusal(self, bytes: u64) -> Option<ReserveError> {
        if bytes > self.capacity {
            Some(ReserveError::TooLarge { requested: bytes, capacity: self.capacity })
        } else if self.closed {
            Some(ReserveError::Closed)
        } else if bytes > self.available() {
            Some(ReserveError::Exhausted { requested: bytes, available: self.available() })
        } else {
            None
        }
    }

    /// The pool after granting `bytes`.
    pub open spec fn reserved(self, bytes: u64) -> PoolView {
        PoolView {
            granted: (self.granted + bytes) as u64,
            next_allocation: (self.next_allocation + 1) as u64,
            ..self
        }
    }

    /// The lease that granting `bytes` hands out.
    pub open spec fn granted_lease(self, bytes: u64) -> LeaseView {
        LeaseView { pool: self.identity(), allocation: self.next_allocation, bytes }
    }

    /// The pool after `bytes` of charge came back. Nothing happens to it, and nothing is
    /// published, where there was no charge.
    pub open spec fn released(self, bytes: u64) -> PoolView {
        if bytes == 0 {
            self
        } else {
            PoolView {
                granted: if self.granted < bytes {
                    0
                } else {
                    (self.granted - bytes) as u64
                },
                readiness: self.readiness.published(),
                ..self
            }
        }
    }

    /// The pool after closure. A pool that was closed already publishes nothing.
    pub open spec fn shut(self) -> PoolView {
        if self.closed {
            self
        } else {
            PoolView { closed: true, readiness: self.readiness.published(), ..self }
        }
    }
}

/// What a pool has and what of it is granted; never more than it has.
#[derive(Clone, Copy, Debug)]
struct Account {
    capacity: u64,
    granted: u64,
}

impl Account {
    #[verifier::type_invariant]
    spec fn accounted(self) -> bool {
        self.granted <= self.capacity
    }
}

/// Authority for one shared physical pool of bytes.
///
/// The pool grants leases; it does not own storage. A backend attaches the storage it
/// materialized to the lease it was granted, and releases both together.
#[derive(Debug)]
pub struct BytePool {
    account: Account,
    next_allocation: u64,
    closed: bool,
    readiness: Readiness,
}

/// An owning reservation of pool bytes.
///
/// Transferring the lease moves the charge with it, so a result handed to another owner
/// keeps its bytes reserved, and popping a result from a queue does not free them. The owner
/// gives them back with [`BytePool::release`]; a lease that is merely forgotten stays charged,
/// so an owner that may drop one holds it in a guard that releases it.
#[derive(Debug)]
#[must_use]
pub struct PoolLease {
    pool: u64,
    allocation: AllocationId,
    bytes: u64,
}

impl View for BytePool {
    type V = PoolView;

    closed spec fn view(&self) -> PoolView {
        PoolView {
            capacity: self.account.capacity,
            granted: self.account.granted,
            next_allocation: self.next_allocation,
            closed: self.closed,
            readiness: self.readiness@,
        }
    }
}

impl View for PoolLease {
    type V = LeaseView;

    closed spec fn view(&self) -> LeaseView {
        LeaseView { pool: self.pool, allocation: self.allocation@, bytes: self.bytes }
    }
}

impl BytePool {
    /// Create a pool that may grant at most `capacity` bytes in total. Its registrations and
    /// its leases carry its identity, so that they are told from those of another pool.
    #[must_use]
    pub fn new(source: SourceId, capacity: u64) -> (r: Self)
        ensures
            r@.wf(),
            r@ == (PoolView {
                capacity,
                granted: 0,
                next_allocation: 1,
                closed: false,
                readiness: ReadinessView {
                    source: source@,
                    epoch: 0,
                    next_subscription: 0,
                    armed: Seq::empty(),
                    woken: Seq::empty(),
                },
            }),
    {
        BytePool {
            account: Account { capacity, granted: 0 },
            next_allocation: 1,
            closed: false,
            readiness: Readiness::new(source),
        }
    }

    /// Total bytes this pool can ever grant, counting every lease it has issued.
    #[must_use]
    pub fn capacity(&self) -> (r: u64)
        ensures
            r == self@.capacity,
    {
        self.account.capacity
    }

    /// Bytes not currently covered by a live lease.
    #[must_use]
    pub fn available(&self) -> (r: u64)
        ensures
            self@.wf(),
            r == self@.available(),
    {
        let account = self.account;
        proof {
            use_type_invariant(&account);
        }
        account.capacity - account.granted
    }

    /// Bytes covered by live leases.
    #[must_use]
    pub fn granted(&self) -> (r: u64)
        ensures
            self@.wf(),
            r == self@.granted,
    {
        let account = self.account;
        proof {
            use_type_invariant(&account);
        }
        account.granted
    }

    /// Whether the pool has identities left for `grants` more leases.
    #[must_use]
    pub fn can_identify(&self, grants: usize) -> (r: bool)
        ensures
            r == (self@.next_allocation + grants <= u64::MAX),
    {
        grants as u64 <= u64::MAX - self.next_allocation
    }

    /// Register before checking capacity. A release or closure changes the wait; use
    /// [`Self::wake_on_change`] to arm the caller's wake transport. A change permits a
    /// retry, not a reservation: another owner may take capacity.
    #[must_use]
    pub fn capacity_wait(&self) -> (r: ReadinessWait)
        ensures
            r@ == self@.readiness.registered(),
    {
        self.readiness.register()
    }

    /// Whether capacity has been published since `wait` was taken.
    #[must_use]
    pub fn changed(&self, wait: &ReadinessWait) -> (r: bool)
        ensures
            r == wait@.changed(self@.readiness),
    {
        wait.changed(&self.readiness)
    }

    /// Arm a caller's wake transport on a registration of this pool.
    pub fn wake_on_change(&mut self, wait: &mut ReadinessWait, key: u64)
        requires
            old(wait)@.source == old(self)@.readiness.source,
        ensures
            final(wait)@ == old(wait)@.armed_with(old(self)@.readiness, key),
            final(self)@ == (PoolView {
                readiness: old(wait)@.source_armed_with(old(self)@.readiness, key),
                ..old(self)@
            }),
    {
        wait.wake_on_change(&mut self.readiness, key);
    }

    /// Give up a registration of this pool, and its notification with it.
    pub fn detach(&mut self, wait: ReadinessWait)
        requires
            wait@.source == old(self)@.readiness.source,
        ensures
            final(self)@ == (PoolView {
                readiness: old(self)@.readiness.let_go(wait@.notification),
                ..old(self)@
            }),
    {
        wait.detach(&mut self.readiness);
    }

    /// Take the keys of the owners that a release or closure has to wake.
    #[must_use]
    pub fn take_woken(&mut self) -> (r: Vec<u64>)
        ensures
            r@ == old(self)@.readiness.woken,
            final(self)@ == (PoolView {
                readiness: ReadinessView { woken: Seq::empty(), ..old(self)@.readiness },
                ..old(self)@
            }),
    {
        self.readiness.take_woken()
    }

    /// Reserve `bytes` and return the owning lease.
    ///
    /// # Errors
    /// Returns [`ReserveError::TooLarge`] for an amount this pool can never grant,
    /// [`ReserveError::Exhausted`] while other leases hold the capacity, or
    /// [`ReserveError::Closed`] after [`BytePool::close`].
    pub fn reserve(&mut self, bytes: u64) -> (r: Result<PoolLease, ReserveError>)
        requires
            old(self)@.next_allocation < u64::MAX,
        ensures
            old(self)@.wf(),
            final(self)@.wf(),
            match old(self)@.refusal(bytes) {
                Some(error) => r == Err::<PoolLease, ReserveError>(error) && final(self)@ == old(
                    self,
                )@,
                None => r is Ok && r->Ok_0@ == old(self)@.granted_lease(bytes) && final(self)@
                    == old(self)@.reserved(bytes),
            },
    {
        let account = self.account;
        proof {
            use_type_invariant(&account);
        }
        if bytes > account.capacity {
            return Err(ReserveError::TooLarge { requested: bytes, capacity: account.capacity });
        }
        if self.closed {
            return Err(ReserveError::Closed);
        }
        let available: u64 = account.capacity - account.granted;
        if bytes > available {
            return Err(ReserveError::Exhausted { requested: bytes, available });
        }
        self.account = Account { capacity: account.capacity, granted: account.granted + bytes };
        let allocation = AllocationId(self.next_allocation);
        self.next_allocation = self.next_allocation + 1;
        Ok(PoolLease { pool: self.readiness.source(), allocation, bytes })
    }

    /// Refuse new reservations. Existing leases keep their charge and release normally,
    /// so shutdown does not pretend that live device state is free. The transition
    /// publishes readiness so waiting callers can observe closure without waiting for a
    /// lease to release. Repeated closure is a no-op.
    pub fn close(&mut self)
        ensures
            final(self)@ == old(self)@.shut(),
    {
        if !self.closed {
            self.closed = true;
            self.readiness.publish();
        }
    }

    /// Whether this pool has stopped granting reservations.
    #[must_use]
    pub fn is_closed(&self) -> (r: bool)
        ensures
            r == self@.closed,
    {
        self.closed
    }

    /// Whether this pool granted the lease.
    #[must_use]
    pub fn granted_by_this(&self, lease: &PoolLease) -> (r: bool)
        ensures
            r == (lease@.pool == self@.identity()),
    {
        lease.pool == self.readiness.source()
    }

    /// Take a lease of this pool back and free its charge.
    pub fn release(&mut self, lease: PoolLease)
        requires
            lease@.pool == old(self)@.identity(),
        ensures
            final(self)@.wf(),
            final(self)@ == old(self)@.released(lease@.bytes),
    {
        let account = self.account;
        proof {
            use_type_invariant(&account);
        }
        if lease.bytes > 0 {
            self.release_bytes(lease.bytes);
        }
    }

    fn release_bytes(&mut self, bytes: u64)
        requires
            bytes > 0,
        ensures
            final(self)@.wf(),
            final(self)@ == old(self)@.released(bytes),
    {
        let account = self.account;
        proof {
            use_type_invariant(&account);
        }
        self.account = Account {
            capacity: account.capacity,
            granted: account.granted.saturating_sub(bytes),
        };
        // Publish after updating the accounting: an owner that is woken may inspect this
        // pool or attempt another reservation immediately.
        self.readiness.publish();
    }
}

impl PoolLease {
    /// Identity of this granted allocation, stable for the lifetime of the lease.
    #[must_use]
    pub fn allocation(&self) -> (r: AllocationId)
        ensures
            r@ == self@.allocation,
    {
        self.allocation
    }

    /// Bytes this lease keeps reserved.
    #[must_use]
    pub fn bytes(&self) -> (r: u64)
        ensures
            r == self@.bytes,
    {
        self.bytes
    }

    /// Reduce the lease to `bytes`, releasing the remainder to `pool` immediately.
    ///
    /// A backend uses this when it learns the real demand is smaller than its
    /// preparation-time estimate. It cannot grow, because growing would have to
    /// negotiate with the authority again.
    ///
    /// # Errors
    /// Returns [`ReserveError::TooLarge`] when `bytes` exceeds the current charge.
    pub fn shrink_to(&mut self, pool: &mut BytePool, bytes: u64) -> (r: Result<(), ReserveError>)
        requires
            old(self)@.pool == old(pool)@.identity(),
        ensures
            bytes > old(self)@.bytes ==> {
                &&& r == Err::<(), ReserveError>(
                    ReserveError::TooLarge { requested: bytes, capacity: old(self)@.bytes },
                )
                &&& final(self)@ == old(self)@
                &&& final(pool)@ == old(pool)@
            },
            bytes <= old(self)@.bytes ==> {
                &&& r is Ok
                &&& final(self)@ == (LeaseView { bytes, ..old(self)@ })
                &&& final(pool)@ == old(pool)@.released((old(self)@.bytes - bytes) as u64)
            },
    {
        if bytes > self.bytes {
            return Err(ReserveError::TooLarge { requested: bytes, capacity: self.bytes });
        }
        let released: u64 = self.bytes - bytes;
        self.bytes = bytes;
        if released > 0 {
            pool.release_bytes(released);
        }
        Ok(())
    }
}

/// Sum of the charges of live leases.
pub open spec fn charges(live: Seq<LeaseView>) -> int
    decreases live.len(),
{
    if live.len() == 0 {
        0
    } else {
        charges(live.drop_last()) + live.last().bytes
    }
}

/// Taking a lease out lowers the sum by what it holds.
pub proof fn lemma_charges_remove(live: Seq<LeaseView>, i: int)
    requires
        0 <= i < live.len(),
    ensures
        charges(live.remove(i)) == charges(live) - live[i].bytes,
    decreases live.len(),
{
    if i == live.len() - 1 {
        assert(live.remove(i) =~= live.drop_last());
    } else {
        lemma_charges_remove(live.drop_last(), i);
        assert(live.remove(i).drop_last() =~= live.drop_last().remove(i));
        assert(live.remove(i).last() == live.last());
    }
}

/// Leases never hold less than nothing.
pub proof fn lemma_charges_nonnegative(live: Seq<LeaseView>)
    ensures
        charges(live) >= 0,
    decreases live.len(),
{
    if live.len() > 0 {
        lemma_charges_nonnegative(live.drop_last());
    }
}

/// A grant takes exactly the bytes asked for, and giving them back restores the account.
pub proof fn law_release_undoes_reserve(pool: PoolView, bytes: u64)
    requires
        pool.wf(),
        pool.refusal(bytes) is None,
        pool.next_allocation < u64::MAX,
    ensures
        pool.reserved(bytes).wf(),
        pool.reserved(bytes).granted == pool.granted + bytes,
        pool.reserved(bytes).available() == pool.available() - bytes,
        pool.reserved(bytes).released(bytes).granted == pool.granted,
        pool.reserved(bytes).released(bytes).available() == pool.available(),
        pool.reserved(bytes).released(bytes).closed == pool.closed,
{
}

/// Granted and available bytes always add up to the capacity, whatever happens.
pub proof fn law_capacity_is_conserved(pool: PoolView, bytes: u64)
    requires
        pool.wf(),
    ensures
        pool.granted + pool.available() == pool.capacity,
        pool.refusal(bytes) is None ==> pool.reserved(bytes).wf() && pool.reserved(bytes).capacity
            == pool.capacity,
        pool.released(bytes).wf() && pool.released(bytes).capacity == pool.capacity,
        pool.shut().wf() && pool.shut().capacity == pool.capacity,
{
}

/// An amount beyond the capacity is refused as such whatever is granted, released or
/// closed: waiting cannot make it satisfiable.
pub proof fn law_oversized_requests_never_wait(pool: PoolView, bytes: u64, back: u64)
    requires
        bytes > pool.capacity,
    ensures
        pool.refusal(bytes) == Some(
            ReserveError::TooLarge { requested: bytes, capacity: pool.capacity },
        ),
        pool.released(back).refusal(bytes) == pool.refusal(bytes),
        pool.shut().refusal(bytes) == pool.refusal(bytes),
{
}

/// Reservations publish nothing, neither granted nor refused; a release that returns
/// bytes and the first closure publish once.
pub proof fn law_only_releases_and_closure_publish(
    pool: PoolView,
    wait: ReadinessWaitView,
    bytes: u64,
)
    requires
        wait == pool.readiness.registered(),
    ensures
        !wait.changed(pool.reserved(bytes).readiness),
        wait.changed(pool.released(bytes).readiness) <==> bytes > 0,
        wait.changed(pool.shut().readiness) <==> !pool.closed,
        pool.shut().shut() == pool.shut(),
{
}

/// A closed pool stays closed and grants nothing, while its leases still come back.
pub proof fn law_closed_pools_only_drain(pool: PoolView, bytes: u64, held: u64)
    requires
        pool.wf(),
        pool.closed,
        held <= pool.granted,
        bytes <= pool.capacity,
    ensures
        pool.refusal(bytes) == Some(ReserveError::Closed),
        pool.released(held).closed,
        pool.released(held).granted == pool.granted - held,
        pool.released(held).refusal(bytes) == Some(ReserveError::Closed),
{
}

/// A pool together with its live leases: those it granted and has not taken back.
#[verifier::ext_equal]
pub struct Ledger {
    pub pool: PoolView,
    pub live: Seq<LeaseView>,
}

/// One operation on a pool and its leases. Moving a lease to another owner is none.
pub enum PoolOp {
    /// Ask for bytes.
    Reserve(u64),
    /// Give the live lease at this place back.
    Release(int),
    /// Shrink the live lease at this place to fewer bytes.
    Shrink(int, u64),
    /// Close the pool.
    Close,
}

impl Ledger {
    /// The account is the sum of the live leases, which are all of this pool.
    pub open spec fn balanced(self) -> bool {
        &&& self.pool.wf()
        &&& charges(self.live) == self.pool.granted
        &&& forall|i: int|
            0 <= i < self.live.len() ==> (#[trigger] self.live[i]).pool == self.pool.identity()
    }

    /// The ledger after one operation. A refused reservation, a growth and a place without a
    /// lease leave it as it was.
    pub open spec fn applied(self, op: PoolOp) -> Ledger {
        match op {
            PoolOp::Reserve(bytes) => if self.pool.refusal(bytes) is None {
                Ledger {
                    pool: self.pool.reserved(bytes),
                    live: self.live.push(self.pool.granted_lease(bytes)),
                }
            } else {
                self
            },
            PoolOp::Release(i) => if 0 <= i < self.live.len() {
                Ledger {
                    pool: self.pool.released(self.live[i].bytes),
                    live: self.live.remove(i),
                }
            } else {
                self
            },
            PoolOp::Shrink(i, bytes) => if 0 <= i < self.live.len() && bytes
                <= self.live[i].bytes {
                Ledger {
                    pool: self.pool.released((self.live[i].bytes - bytes) as u64),
                    live: self.live.update(i, LeaseView { bytes, ..self.live[i] }),
                }
            } else {
                self
            },
            PoolOp::Close => Ledger { pool: self.pool.shut(), ..self },
        }
    }
}

/// The ledger after a history of operations.
pub open spec fn history(ledger: Ledger, ops: Seq<PoolOp>) -> Ledger
    decreases ops.len(),
{
    if ops.len() == 0 {
        ledger
    } else {
        history(ledger, ops.drop_last()).applied(ops.last())
    }
}

/// An operation keeps a balanced account balanced.
pub proof fn lemma_operations_keep_balance(ledger: Ledger, op: PoolOp)
    requires
        ledger.balanced(),
    ensures
        ledger.applied(op).balanced(),
        ledger.applied(op).pool.capacity == ledger.pool.capacity,
        ledger.applied(op).pool.identity() == ledger.pool.identity(),
{
    let live = ledger.live;
    match op {
        PoolOp::Reserve(bytes) => {
            assert(live.push(ledger.pool.granted_lease(bytes)).drop_last() =~= live);
        },
        PoolOp::Release(i) => {
            if 0 <= i < live.len() {
                lemma_charges_remove(live, i);
                lemma_charges_nonnegative(live.remove(i));
            }
        },
        PoolOp::Shrink(i, bytes) => {
            if 0 <= i < live.len() && bytes <= live[i].bytes {
                let shrunk = live.update(i, LeaseView { bytes, ..live[i] });
                lemma_charges_remove(live, i);
                lemma_charges_remove(shrunk, i);
                lemma_charges_nonnegative(live.remove(i));
                assert(shrunk.remove(i) =~= live.remove(i));
            }
        },
        PoolOp::Close => {},
    }
}

/// Whatever is reserved, shrunk, given back or closed, a balanced account stays balanced.
pub proof fn lemma_history_keeps_balance(ledger: Ledger, ops: Seq<PoolOp>)
    requires
        ledger.balanced(),
    ensures
        history(ledger, ops).balanced(),
        history(ledger, ops).pool.capacity == ledger.pool.capacity,
        history(ledger, ops).pool.identity() == ledger.pool.identity(),
    decreases ops.len(),
{
    if ops.len() > 0 {
        lemma_history_keeps_balance(ledger, ops.drop_last());
        lemma_operations_keep_balance(history(ledger, ops.drop_last()), ops.last());
    }
}

/// From a pool that has granted nothing on, the granted bytes are the sum of the live leases
/// after any history, and with the available bytes they make up the capacity. Giving any of
/// the leases back lowers the granted bytes by exactly what that lease then holds.
pub proof fn law_granted_is_the_sum_of_live_leases(pool: PoolView, ops: Seq<PoolOp>, i: int)
    requires
        pool.granted == 0,
    ensures
        ({
            let after = history(Ledger { pool, live: Seq::empty() }, ops);
            &&& after.pool.granted == charges(after.live)
            &&& after.pool.available() + after.pool.granted == after.pool.capacity
            &&& after.pool.capacity == pool.capacity
            &&& 0 <= i < after.live.len() ==> after.applied(PoolOp::Release(i)).pool.granted
                == after.pool.granted - after.live[i].bytes
        }),
{
    let start = Ledger { pool, live: Seq::empty() };
    lemma_history_keeps_balance(start, ops);
    let after = history(start, ops);
    if 0 <= i < after.live.len() {
        lemma_operations_keep_balance(after, PoolOp::Release(i));
        lemma_charges_remove(after.live, i);
    }
}

/// The identities that a history of operations grants, in order.
pub open spec fn issued(ledger: Ledger, ops: Seq<PoolOp>) -> Seq<u64>
    decreases ops.len(),
{
    if ops.len() == 0 {
        Seq::empty()
    } else {
        let before = history(ledger, ops.drop_last()).pool;
        let earlier = issued(ledger, ops.drop_last());
        match ops.last() {
            PoolOp::Reserve(bytes) => if before.refusal(bytes) is None {
                earlier.push(before.granted_lease(bytes).allocation)
            } else {
                earlier
            },
            _ => earlier,
        }
    }
}

/// No identity is ever granted twice, however many leases came back in between.
pub proof fn law_allocations_are_never_reissued(ledger: Ledger, ops: Seq<PoolOp>)
    requires
        ledger.pool.next_allocation + ops.len() <= u64::MAX,
    ensures
        issued(ledger, ops).no_duplicates(),
        forall|i: int|
            0 <= i < issued(ledger, ops).len() ==> ledger.pool.next_allocation
                <= #[trigger] issued(ledger, ops)[i] < history(ledger, ops).pool.next_allocation,
        ledger.pool.next_allocation <= history(ledger, ops).pool.next_allocation
            <= ledger.pool.next_allocation + ops.len(),
    decreases ops.len(),
{
    if ops.len() > 0 {
        law_allocations_are_never_reissued(ledger, ops.drop_last());
    }
}

} // verus!
