//! Epoch registration with optional one-shot wake notifications.
//!
//! Register before testing the condition; publish only after changing it. A wait
//! remains changed even if publication precedes parking. Execution owners can arm
//! their notification transport before parking without losing that publication.
//!
//! The transport is a caller-chosen key: publication moves the keys of the armed
//! owners to an outbox, and the execution owner wakes them from there, outside any
//! accounting it guards.

use vstd::prelude::*;

verus! {

/// One armed notification and the number of registrations that share it.
#[derive(Clone, Copy, Debug, PartialEq, Eq, Structural)]
pub struct Subscription {
    pub id: u64,
    pub key: u64,
    pub owners: u64,
}

/// What a publication source holds.
#[verifier::ext_equal]
pub struct ReadinessView {
    pub source: u64,
    pub epoch: u64,
    pub next_subscription: u64,
    pub armed: Seq<Subscription>,
    pub woken: Seq<u64>,
}

/// Identity of one publication source. It cannot be copied, and a source takes it over, so
/// no two sources that draw on one supply have the same one.
#[derive(Debug)]
pub struct SourceId(u64);

impl View for SourceId {
    type V = u64;

    closed spec fn view(&self) -> u64 {
        self.0
    }
}

/// Where source identities come from. One of these serves every source of a process, so that
/// an identity names one source.
#[derive(Debug)]
pub struct SourceIds {
    next: u64,
}

impl View for SourceIds {
    type V = u64;

    closed spec fn view(&self) -> u64 {
        self.next
    }
}

impl SourceIds {
    /// A supply that starts at the first identity.
    #[must_use]
    pub fn new() -> (r: Self)
        ensures
            r@ == 1,
    {
        SourceIds { next: 1 }
    }

    /// The next identity, until they are exhausted.
    pub fn take(&mut self) -> (r: Option<SourceId>)
        ensures
            old(self)@ == u64::MAX ==> r is None && final(self)@ == old(self)@,
            old(self)@ < u64::MAX ==> r is Some && r->Some_0@ == old(self)@ && final(self)@
                == old(self)@ + 1,
    {
        if self.next == u64::MAX {
            return None;
        }
        let taken = SourceId(self.next);
        self.next = self.next + 1;
        Some(taken)
    }
}

/// Resource-owner publication source. This value grants no resources.
#[derive(Debug)]
pub struct Readiness {
    source: u64,
    epoch: u64,
    next_subscription: u64,
    armed: Vec<Subscription>,
    woken: Vec<u64>,
}

/// A retained registration, tied to its source rather than a bare epoch number. The owner
/// gives it up with [`Self::detach`]; a notification that is armed on one merely forgotten
/// stays armed until the next publication.
#[derive(Debug)]
pub struct ReadinessWait {
    source: u64,
    observed: u64,
    notification: Option<(u64, u64)>,
}

/// What a registration holds: its source, the epoch it observed, and the identity and
/// key of the subscription it armed.
#[verifier::ext_equal]
pub struct ReadinessWaitView {
    pub source: u64,
    pub observed: u64,
    pub notification: Option<(u64, u64)>,
}

/// Keys of the armed owners, in arming order.
pub open spec fn keys_of(armed: Seq<Subscription>) -> Seq<u64> {
    armed.map_values(|s: Subscription| s.key)
}

/// The number after `n`, wrapping around at the end of its range.
pub open spec fn next_wrapping(n: u64) -> u64 {
    if n == u64::MAX {
        0
    } else {
        (n + 1) as u64
    }
}

/// The armed owners after one owner of subscription `id` lets go: the subscription
/// leaves with its last owner.
pub open spec fn release_owner(armed: Seq<Subscription>, id: u64) -> Seq<Subscription>
    decreases armed.len(),
{
    if armed.len() == 0 {
        armed
    } else if armed[0].id == id {
        if armed[0].owners <= 1 {
            armed.drop_first()
        } else {
            armed.update(
                0,
                Subscription {
                    id: armed[0].id,
                    key: armed[0].key,
                    owners: (armed[0].owners - 1) as u64,
                },
            )
        }
    } else {
        seq![armed[0]] + release_owner(armed.drop_first(), id)
    }
}

/// The armed owners after one more owner joins subscription `id`.
pub open spec fn add_owner(armed: Seq<Subscription>, id: u64) -> Seq<Subscription> {
    armed.map_values(
        |s: Subscription|
            if s.id == id && s.owners < u64::MAX {
                Subscription { id: s.id, key: s.key, owners: (s.owners + 1) as u64 }
            } else {
                s
            },
    )
}

/// Skipping entries of other subscriptions does not change what a release does.
proof fn lemma_release_owner_skip(armed: Seq<Subscription>, id: u64, n: int)
    requires
        0 <= n <= armed.len(),
        forall|i: int| 0 <= i < n ==> (#[trigger] armed[i]).id != id,
    ensures
        release_owner(armed, id) == armed.take(n) + release_owner(armed.skip(n), id),
    decreases n,
{
    if n == 0 {
        assert(armed.skip(0) =~= armed);
        assert(armed.take(0) + release_owner(armed, id) =~= release_owner(armed, id));
    } else {
        let rest = armed.drop_first();
        assert forall|i: int| 0 <= i < n - 1 implies (#[trigger] rest[i]).id != id by {
            assert(rest[i] == armed[i + 1]);
        }
        lemma_release_owner_skip(rest, id, n - 1);
        assert(rest.skip(n - 1) =~= armed.skip(n));
        assert(armed[0].id != id);
        assert(seq![armed[0]] + (rest.take(n - 1) + release_owner(armed.skip(n), id))
            =~= armed.take(n) + release_owner(armed.skip(n), id));
    }
}

impl View for Readiness {
    type V = ReadinessView;

    closed spec fn view(&self) -> ReadinessView {
        ReadinessView {
            source: self.source,
            epoch: self.epoch,
            next_subscription: self.next_subscription,
            armed: self.armed@,
            woken: self.woken@,
        }
    }
}

impl View for ReadinessWait {
    type V = ReadinessWaitView;

    closed spec fn view(&self) -> ReadinessWaitView {
        ReadinessWaitView {
            source: self.source,
            observed: self.observed,
            notification: self.notification,
        }
    }
}

impl ReadinessView {
    /// The source after one publication: a new epoch, every armed owner in the outbox,
    /// nobody left armed.
    pub open spec fn published(self) -> ReadinessView {
        ReadinessView {
            epoch: next_wrapping(self.epoch),
            armed: Seq::empty(),
            woken: self.woken + keys_of(self.armed),
            ..self
        }
    }

    /// The registration that a caller takes now.
    pub open spec fn registered(self) -> ReadinessWaitView {
        ReadinessWaitView { source: self.source, observed: self.epoch, notification: None }
    }

    /// The source after the holder of `notification` lets it go.
    pub open spec fn let_go(self, notification: Option<(u64, u64)>) -> ReadinessView {
        match notification {
            Some(held) => ReadinessView { armed: release_owner(self.armed, held.0), ..self },
            None => self,
        }
    }
}

impl ReadinessWaitView {
    /// Whether the source has published since this registration was taken.
    pub open spec fn changed(self, source: ReadinessView) -> bool {
        self.source == source.source && self.observed != source.epoch
    }

    /// Whether arming with `key` would repeat the transport already armed.
    pub open spec fn already_armed(self, key: u64) -> bool {
        self.notification matches Some(held) && held.1 == key
    }

    /// The registration after arming with `key`.
    pub open spec fn armed_with(self, source: ReadinessView, key: u64) -> ReadinessWaitView {
        if self.already_armed(key) {
            self
        } else {
            ReadinessWaitView { notification: Some((source.next_subscription, key)), ..self }
        }
    }

    /// The source after this registration arms with `key`: a wake at once where the
    /// source has already published, a subscription otherwise.
    pub open spec fn source_armed_with(self, source: ReadinessView, key: u64) -> ReadinessView {
        if self.already_armed(key) {
            source
        } else {
            let released = source.let_go(self.notification);
            let next = next_wrapping(source.next_subscription);
            if self.changed(source) {
                ReadinessView {
                    next_subscription: next,
                    woken: source.woken.push(key),
                    ..released
                }
            } else {
                let entry = Subscription { id: source.next_subscription, key, owners: 1 };
                ReadinessView {
                    next_subscription: next,
                    armed: released.armed.push(entry),
                    ..released
                }
            }
        }
    }
}

fn wrapping_next(n: u64) -> (r: u64)
    ensures
        r == next_wrapping(n),
{
    if n == u64::MAX {
        0
    } else {
        n + 1
    }
}

impl Readiness {
    /// A source under an identity of its own; nothing has been published.
    pub fn new(source: SourceId) -> (r: Self)
        ensures
            r@ == (ReadinessView {
                source: source@,
                epoch: 0,
                next_subscription: 0,
                armed: Seq::empty(),
                woken: Seq::empty(),
            }),
    {
        Readiness {
            source: source.0,
            epoch: 0,
            next_subscription: 0,
            armed: Vec::new(),
            woken: Vec::new(),
        }
    }

    /// The identity of this source.
    pub(crate) fn source(&self) -> (r: u64)
        ensures
            r == self@.source,
    {
        self.source
    }

    /// Register before attempting the operation that may need to wait.
    #[must_use]
    pub fn register(&self) -> (r: ReadinessWait)
        ensures
            r@ == self@.registered(),
    {
        ReadinessWait { source: self.source, observed: self.epoch, notification: None }
    }

    /// Publish after the condition changes and put every armed owner in the outbox
    /// once. This is permission to retry, not a promise that the next operation
    /// succeeds.
    pub fn publish(&mut self)
        ensures
            final(self)@ == old(self)@.published(),
    {
        self.epoch = wrapping_next(self.epoch);
        let ghost woken = self.woken@;
        let mut index: usize = 0;
        while index < self.armed.len()
            invariant
                index <= self.armed.len(),
                self.woken@ == woken + keys_of(self.armed@).take(index as int),
                self.armed@ == old(self).armed@,
                self.source == old(self).source,
                self.next_subscription == old(self).next_subscription,
                self.epoch == next_wrapping(old(self).epoch),
            decreases self.armed.len() - index,
        {
            let key: u64 = self.armed[index].key;
            self.woken.push(key);
            index += 1;
            assert(keys_of(self.armed@).take(index as int) =~= keys_of(self.armed@).take(
                index - 1,
            ).push(key));
        }
        assert(keys_of(self.armed@).take(index as int) =~= keys_of(self.armed@));
        self.armed.clear();
    }

    /// Take the keys of the owners to wake, oldest first.
    #[must_use]
    pub fn take_woken(&mut self) -> (r: Vec<u64>)
        ensures
            r@ == old(self)@.woken,
            final(self)@ == (ReadinessView { woken: Seq::empty(), ..old(self)@ }),
    {
        let mut taken: Vec<u64> = Vec::new();
        taken.append(&mut self.woken);
        taken
    }

    /// How many notifications are armed.
    #[must_use]
    pub fn armed_notifications(&self) -> (r: usize)
        ensures
            r == self@.armed.len(),
    {
        self.armed.len()
    }

    fn let_go(&mut self, notification: Option<(u64, u64)>)
        ensures
            final(self)@ == old(self)@.let_go(notification),
    {
        let id: u64 = match notification {
            Some(held) => held.0,
            None => {
                return ;
            },
        };
        let mut index: usize = 0;
        while index < self.armed.len()
            invariant
                index <= self.armed.len(),
                *self == *old(self),
                forall|i: int| 0 <= i < index ==> (#[trigger] self.armed@[i]).id != id,
                notification matches Some(held) && held.0 == id,
            decreases self.armed.len() - index,
        {
            if self.armed[index].id == id {
                let ghost before = self.armed@;
                proof {
                    lemma_release_owner_skip(before, id, index as int);
                    assert(before.skip(index as int)[0] == before[index as int]);
                }
                let entry: Subscription = self.armed[index];
                if entry.owners <= 1 {
                    self.armed.remove(index);
                    assert(self.armed@ =~= before.take(index as int) + before.skip(
                        index as int,
                    ).drop_first());
                } else {
                    let left: u64 = entry.owners - 1;
                    self.armed[index] = Subscription { id: entry.id, key: entry.key, owners: left };
                    assert(self.armed@ =~= before.take(index as int) + before.skip(
                        index as int,
                    ).update(0, Subscription { id: entry.id, key: entry.key, owners: left }));
                }
                return ;
            }
            index += 1;
        }
        proof {
            lemma_release_owner_skip(self.armed@, id, index as int);
            assert(self.armed@.skip(index as int) =~= Seq::empty());
            assert(self.armed@.take(index as int) + Seq::<Subscription>::empty() =~= self.armed@);
        }
    }
}

impl ReadinessWait {
    /// Whether this attempt should be retried. It remains true until the caller
    /// replaces this registration, including when publication precedes parking. Only
    /// the source that the registration was taken from can change it.
    #[must_use]
    pub fn changed(&self, source: &Readiness) -> (r: bool)
        ensures
            r == self@.changed(source@),
    {
        self.source == source.source && source.epoch != self.observed
    }

    /// Arm an owner's wake transport before parking. Repeated calls with the same key
    /// do not add subscriptions. First arming after a change wakes immediately;
    /// otherwise publication consumes the subscription. Retrying needs a new wait.
    pub fn wake_on_change(&mut self, source: &mut Readiness, key: u64)
        requires
            old(self)@.source == old(source)@.source,
        ensures
            final(self)@ == old(self)@.armed_with(old(source)@, key),
            final(source)@ == old(self)@.source_armed_with(old(source)@, key),
    {
        if let Some(held) = self.notification {
            if held.1 == key {
                return ;
            }
        }
        let id: u64 = source.next_subscription;
        let changed = self.changed(source);
        source.let_go(self.notification);
        source.next_subscription = wrapping_next(id);
        self.notification = Some((id, key));
        if changed {
            source.woken.push(key);
        } else {
            source.armed.push(Subscription { id, key, owners: 1 });
        }
    }

    /// A second registration for the same attempt. It shares the armed subscription,
    /// which stays until its last owner lets go.
    #[must_use]
    pub fn share(&self, source: &mut Readiness) -> (r: ReadinessWait)
        requires
            self@.source == old(source)@.source,
        ensures
            r@ == self@,
            final(source)@ == (match self@.notification {
                Some(held) => ReadinessView {
                    armed: add_owner(old(source)@.armed, held.0),
                    ..old(source)@
                },
                None => old(source)@,
            }),
    {
        if let Some(held) = self.notification {
            let mut index: usize = 0;
            while index < source.armed.len()
                invariant
                    index <= source.armed.len() == old(source).armed@.len(),
                    self.notification == Some(held),
                    source.source == old(source).source,
                    source.epoch == old(source).epoch,
                    source.next_subscription == old(source).next_subscription,
                    source.woken@ == old(source).woken@,
                    source.armed@ == add_owner(old(source).armed@, held.0).take(index as int)
                        + old(source).armed@.skip(index as int),
                decreases source.armed.len() - index,
            {
                let entry: Subscription = source.armed[index];
                assert(entry == old(source).armed@[index as int]);
                if entry.id == held.0 && entry.owners < u64::MAX {
                    source.armed[index] = Subscription {
                        id: entry.id,
                        key: entry.key,
                        owners: entry.owners + 1,
                    };
                }
                index += 1;
                assert(source.armed@ =~= add_owner(old(source).armed@, held.0).take(index as int)
                    + old(source).armed@.skip(index as int));
            }
            assert(source.armed@ =~= add_owner(old(source).armed@, held.0));
        }
        ReadinessWait {
            source: self.source,
            observed: self.observed,
            notification: self.notification,
        }
    }

    /// Give the registration up. Its subscription leaves with its last owner, so a
    /// later publication does not wake an owner that has gone.
    pub fn detach(self, source: &mut Readiness)
        requires
            self@.source == old(source)@.source,
        ensures
            final(source)@ == old(source)@.let_go(self@.notification),
    {
        source.let_go(self.notification);
    }

    /// Whether two registrations stand for the same attempt. The wake transport does
    /// not alter that identity.
    #[must_use]
    pub fn same_registration(&self, other: &ReadinessWait) -> (r: bool)
        ensures
            r == (self@.source == other@.source && self@.observed == other@.observed),
    {
        self.source == other.source && self.observed == other.observed
    }
}

/// A source after so many publications.
pub open spec fn published_times(source: ReadinessView, times: nat) -> ReadinessView
    decreases times,
{
    if times == 0 {
        source
    } else {
        published_times(source, (times - 1) as nat).published()
    }
}

/// How far publications take the epoch of a source: forward, and around once.
proof fn lemma_epoch_after(source: ReadinessView, times: nat)
    requires
        times <= u64::MAX,
    ensures
        published_times(source, times).source == source.source,
        published_times(source, times).epoch == if source.epoch + times <= u64::MAX {
            source.epoch + times
        } else {
            source.epoch + times - u64::MAX - 1
        },
    decreases times,
{
    if times > 0 {
        lemma_epoch_after(source, (times - 1) as nat);
    }
}

/// A publication changes every registration taken from the source before it, and a
/// registration stays changed however many publications follow, short of as many as bring the
/// epoch back around. A registration taken after them is not changed by them.
pub proof fn law_publication_remains_observable(
    source: ReadinessView,
    wait: ReadinessWaitView,
    times: nat,
)
    requires
        wait.source == source.source,
        wait.observed == source.epoch,
        times <= u64::MAX,
    ensures
        wait.changed(published_times(source, times)) <==> times > 0,
        !published_times(source, times).registered().changed(published_times(source, times)),
{
    lemma_epoch_after(source, times);
}

/// Publication on another source leaves a registration as it was.
pub proof fn law_unrelated_sources_do_not_reactivate(
    wait: ReadinessWaitView,
    other: ReadinessView,
)
    requires
        wait.source != other.source,
    ensures
        !wait.changed(other),
        !wait.changed(other.published()),
{
}

/// Sources made under two identities of one supply are told apart: no registration of one is
/// changed by the other, and no two registrations of them stand for the same attempt.
pub proof fn law_sources_are_distinct(
    supply: u64,
    later: u64,
    source: ReadinessView,
    other: ReadinessView,
    wait: ReadinessWaitView,
)
    requires
        source.source == supply,
        supply + 1 <= later,
        other.source == later,
        wait.source == source.source,
    ensures
        !wait.changed(other),
        !wait.changed(other.published()),
        wait.source != other.registered().source,
{
}

/// Arming and publishing wake the owner exactly once, on either side of each other: the
/// outbox gains the keys of all who were armed before and the owner's own behind them, and a
/// second publication adds nothing.
pub proof fn law_arming_never_loses_a_publication(
    source: ReadinessView,
    wait: ReadinessWaitView,
    key: u64,
)
    requires
        wait == source.registered(),
    ensures
        ({
            let woken = source.woken + keys_of(source.armed) + seq![key];
            &&& wait.source_armed_with(source, key).published().woken == woken
            &&& wait.source_armed_with(source.published(), key).woken == woken
            &&& wait.source_armed_with(source, key).published().published().woken == woken
            &&& wait.source_armed_with(source.published(), key).published().woken == woken
        }),
{
    let entry = Subscription { id: source.next_subscription, key, owners: 1 };
    let woken = source.woken + keys_of(source.armed) + seq![key];
    assert(keys_of(source.armed.push(entry)) =~= keys_of(source.armed) + seq![key]);
    assert(source.woken + (keys_of(source.armed) + seq![key]) =~= woken);
    assert((source.woken + keys_of(source.armed)).push(key) =~= woken);
    assert(keys_of(Seq::<Subscription>::empty()) =~= Seq::<u64>::empty());
    assert(woken + Seq::<u64>::empty() =~= woken);
}

/// A registration that lets go before the publication is not woken by it, and everybody else
/// who was armed is.
pub proof fn law_detached_registrations_are_not_woken(
    source: ReadinessView,
    wait: ReadinessWaitView,
    key: u64,
)
    requires
        wait == source.registered(),
        forall|i: int|
            0 <= i < source.armed.len() ==> (#[trigger] source.armed[i]).id
                != source.next_subscription,
    ensures
        wait.source_armed_with(source, key).let_go(
            wait.armed_with(source, key).notification,
        ).published().woken == source.woken + keys_of(source.armed),
{
    let entry = Subscription { id: source.next_subscription, key, owners: 1 };
    let armed = source.armed.push(entry);
    let n = source.armed.len() as int;
    assert forall|i: int| 0 <= i < n implies (#[trigger] armed[i]).id != entry.id by {
        assert(armed[i] == source.armed[i]);
    }
    lemma_release_owner_skip(armed, entry.id, n);
    assert(armed.skip(n) =~= seq![entry]);
    assert(release_owner(seq![entry], entry.id) =~= Seq::empty());
    assert(armed.take(n) =~= source.armed);
    assert(release_owner(armed, entry.id) =~= source.armed);
}

} // verus!
