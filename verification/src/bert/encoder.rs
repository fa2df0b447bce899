//! The host side of a prepared encoder: its configuration, what it charges and plans for a
//! request, and the device work it keeps because nobody may reuse its storage yet.
//!
//! Device buffers and prepared device state are the caller's own types. The encoder keeps
//! them together with the pool charges that cover them.

use crate::batch::executor::{BatchSelection, EnqueueError, JobOutput};
use crate::bert::config::{BertConfig, ConfigError, ConfigErrorView};
use crate::bert::forward::{forward_pass, forward_steps, BufferLengths, EncoderStep};
use crate::bert::request::{
    envelope_bytes, execution_defect, select, selected, shape, shape_defect, shape_of, shape_view,
    EncoderConstraint, EncoderRequest, EncoderRequestView, EncoderShape,
};
use crate::bert::weights::{weights_defect, HostWeights, WeightError, WeightErrorView};
use crate::foundation::parameter::ParameterVersion;
use crate::foundation::pool::{BytePool, PoolLease, PoolView};
use vstd::prelude::*;

verus! {

/// Requests one accepted range may contain when the deployment does not say.
///
/// This is deployment policy, not a model property: it caps how much of one batch the
/// encoder enqueues at once. The shared pool remains the byte bound, and the runtime
/// shrinks the accepted range further when it cannot reserve the envelopes.
pub const DEFAULT_MAX_BATCH_ITEMS: usize = 16;

/// Why an encoder request could not be prepared or executed.
#[derive(Clone, Debug, PartialEq)]
pub enum EncoderError {
    Config(ConfigError),
    Weights(WeightError),
    Package(String),
    Kernels(String),
    Driver(String),
    /// The request itself can never run on this encoder, whatever is released.
    InvalidRequest(EncoderConstraint),
}

/// What an encoder error says.
#[verifier::ext_equal]
pub enum EncoderErrorView {
    Config(ConfigErrorView),
    Weights(WeightErrorView),
    Package(Seq<char>),
    Kernels(Seq<char>),
    Driver(Seq<char>),
    InvalidRequest(EncoderConstraint),
}

impl View for EncoderError {
    type V = EncoderErrorView;

    open spec fn view(&self) -> EncoderErrorView {
        match *self {
            EncoderError::Config(error) => EncoderErrorView::Config(error@),
            EncoderError::Weights(error) => EncoderErrorView::Weights(error@),
            EncoderError::Package(message) => EncoderErrorView::Package(message@),
            EncoderError::Kernels(message) => EncoderErrorView::Kernels(message@),
            EncoderError::Driver(message) => EncoderErrorView::Driver(message@),
            EncoderError::InvalidRequest(constraint) => EncoderErrorView::InvalidRequest(
                constraint,
            ),
        }
    }
}

/// Why host weights cannot be prepared under a configuration, if they cannot.
pub open spec fn preparation_defect(config: BertConfig, host: HostWeights) -> Option<
    EncoderErrorView,
> {
    match config.defect() {
        Some(error) => Some(EncoderErrorView::Config(error@)),
        None => match weights_defect(config, host) {
            Some(error) => Some(EncoderErrorView::Weights(error)),
            None => None,
        },
    }
}

/// Check a host parameter set before anything of it is uploaded.
///
/// # Errors
/// Returns [`EncoderError`] for an unusable configuration or a configuration/parameter
/// mismatch.
pub fn check_host(config: &BertConfig, host: &HostWeights) -> (r: Result<(), EncoderError>)
    ensures
        match preparation_defect(*config, *host) {
            Some(error) => r is Err && r->Err_0@ == error,
            None => r == Ok::<(), EncoderError>(()),
        },
{
    if let Err(error) = config.validate() {
        return Err(EncoderError::Config(error));
    }
    if let Err(error) = host.check(config) {
        return Err(EncoderError::Weights(error));
    }
    Ok(())
}

/// Device work that nobody consumes, with the charge that covers its storage. Both stay
/// until completion is established.
#[derive(Debug)]
pub struct Retired<S> {
    pub submission: S,
    pub lease: Option<PoolLease>,
}

/// A request whose enqueue failed, with the storage it had created by then.
#[derive(Debug)]
pub struct EnqueueFailure<S> {
    pub error: EncoderError,
    pub storage: Option<S>,
}

impl<S> EnqueueFailure<S> {
    /// Whether the failed request left storage that the device may still write.
    #[must_use]
    pub fn owns_storage(&self) -> (r: bool)
        ensures
            r == (self.storage is Some),
    {
        self.storage.is_some()
    }
}

/// What a request needs of the device: its shape, its buffers and its steps.
#[derive(Clone, Debug, PartialEq, Eq)]
pub struct SubmissionPlan {
    pub shape: EncoderShape,
    pub lengths: BufferLengths,
    pub steps: Vec<EncoderStep>,
}

/// A prepared BERT encoder. `P` is its prepared device state, `S` one request's device
/// state.
#[derive(Debug)]
pub struct CudaBertEncoder<P, S> {
    config: BertConfig,
    max_batch_items: usize,
    prepared: P,
    retired: Vec<Retired<S>>,
}

/// What an encoder holds.
#[verifier::ext_equal]
pub struct EncoderView<P, S> {
    pub config: BertConfig,
    pub max_batch_items: usize,
    pub prepared: P,
    pub retired: Seq<Retired<S>>,
}

impl<P, S> View for CudaBertEncoder<P, S> {
    type V = EncoderView<P, S>;

    closed spec fn view(&self) -> EncoderView<P, S> {
        EncoderView {
            config: self.config,
            max_batch_items: self.max_batch_items,
            prepared: self.prepared,
            retired: self.retired@,
        }
    }
}

/// Pool bytes that a charge reserves.
pub open spec fn charge(lease: Option<PoolLease>) -> int {
    match lease {
        Some(lease) => lease@.bytes as int,
        None => 0,
    }
}

/// Pool bytes that retired work keeps reserved.
pub open spec fn retired_charge<S>(retired: Seq<Retired<S>>) -> int
    decreases retired.len(),
{
    if retired.len() == 0 {
        0
    } else {
        retired_charge(retired.drop_last()) + charge(retired.last().lease)
    }
}

/// Whether every charge that retired work keeps is of the pool with this identity.
pub open spec fn all_of_pool<S>(retired: Seq<Retired<S>>, pool: u64) -> bool {
    forall|i: int|
        0 <= i < retired.len() ==> match (#[trigger] retired[i]).lease {
            Some(lease) => lease@.pool == pool,
            None => true,
        }
}

/// The pool once every charge of retired work was given back, in order.
pub open spec fn drained<S>(pool: PoolView, retired: Seq<Retired<S>>) -> PoolView
    decreases retired.len(),
{
    if retired.len() == 0 {
        pool
    } else {
        let before = drained(pool, retired.drop_last());
        match retired.last().lease {
            Some(lease) => before.released(lease@.bytes),
            None => before,
        }
    }
}

/// The pool once charges that cover no storage were given back, in order.
pub open spec fn given_back(pool: PoolView, leases: Seq<PoolLease>) -> PoolView
    decreases leases.len(),
{
    if leases.len() == 0 {
        pool
    } else {
        given_back(pool, leases.drop_last()).released(leases.last()@.bytes)
    }
}

/// Results taken back, as retired work.
pub open spec fn retired_of<S>(outputs: Seq<JobOutput<S>>) -> Seq<Retired<S>> {
    outputs.map_values(
        |output: JobOutput<S>|
            Retired { submission: output.output, lease: Some(output.lease) },
    )
}

/// Bytes the runtime must reserve for a request: its envelope, or zero where its shape is
/// permanently infeasible.
pub open spec fn reserved_bytes(config: BertConfig, sequence: int) -> int {
    if shape_defect(config, sequence) is None {
        envelope_bytes(config, sequence)
    } else {
        0
    }
}

impl<P, S> CudaBertEncoder<P, S> {
    /// Take over the prepared device state of an already-loaded host parameter set.
    ///
    /// # Errors
    /// Returns [`EncoderError`] for an unusable configuration or a configuration/parameter
    /// mismatch.
    pub fn from_host(config: BertConfig, host: &HostWeights, prepared: P) -> (r: Result<
        Self,
        EncoderError,
    >)
        ensures
            match preparation_defect(config, *host) {
                Some(error) => r is Err && r->Err_0@ == error,
                None => r is Ok && r->Ok_0@ == (EncoderView {
                    config,
                    max_batch_items: DEFAULT_MAX_BATCH_ITEMS,
                    prepared,
                    retired: Seq::<Retired<S>>::empty(),
                }),
            },
    {
        match check_host(&config, host) {
            Err(error) => Err(error),
            Ok(()) => {
                let retired: Vec<Retired<S>> = Vec::new();
                Ok(
                    CudaBertEncoder {
                        config,
                        max_batch_items: DEFAULT_MAX_BATCH_ITEMS,
                        prepared,
                        retired,
                    },
                )
            },
        }
    }

    /// Set how many requests one accepted range may contain.
    ///
    /// Zero is not usable: the batching runtime refuses an executor that cannot run one
    /// item.
    #[must_use]
    pub fn with_max_batch_items(self, items: usize) -> (r: Self)
        ensures
            r@ == (EncoderView { max_batch_items: items, ..self@ }),
    {
        CudaBertEncoder {
            config: self.config,
            max_batch_items: items,
            prepared: self.prepared,
            retired: self.retired,
        }
    }

    #[must_use]
    pub fn config(&self) -> (r: &BertConfig)
        ensures
            *r == self@.config,
    {
        &self.config
    }

    /// Requests one accepted range may contain.
    #[must_use]
    pub fn max_batch_items(&self) -> (r: usize)
        ensures
            r == self@.max_batch_items,
    {
        self.max_batch_items
    }

    /// The prepared device state that every submission of this encoder runs against.
    #[must_use]
    pub fn prepared(&self) -> (r: &P)
        ensures
            *r == self@.prepared,
    {
        &self.prepared
    }

    /// Prepared weights never change while one encoder is loaded, so its parameter version
    /// is constant. Replacing them constructs a new prepared encoder.
    #[must_use]
    pub fn parameter_version(&self) -> (r: ParameterVersion)
        ensures
            r == ParameterVersion(0),
    {
        ParameterVersion::new(0)
    }

    /// Bytes one request of `sequence` positions holds on the device until released.
    ///
    /// # Errors
    /// Returns [`EncoderError`] for a sequence this encoder cannot execute.
    pub fn request_bytes(&self, sequence: usize) -> (r: Result<u64, EncoderError>)
        ensures
            match shape_defect(self@.config, sequence as int) {
                Some(constraint) => r == Err::<u64, EncoderError>(
                    EncoderError::InvalidRequest(constraint),
                ),
                None => r is Ok && r->Ok_0 == envelope_bytes(self@.config, sequence as int),
            },
    {
        match shape(&self.config, sequence) {
            Ok(shape) => Ok(shape.device_bytes()),
            Err(constraint) => Err(EncoderError::InvalidRequest(constraint)),
        }
    }

    /// Accept the prefix whose shapes this encoder can execute.
    ///
    /// The range comes from concrete shapes, not from a per-row budget: the runtime then
    /// reserves each accepted request's real envelope from the shared pool and shrinks the
    /// range further to the largest prefix the pool can cover.
    #[must_use]
    pub fn select_batch(&self, candidates: &[&EncoderRequest]) -> (r: BatchSelection<
        EncoderConstraint,
    >)
        ensures
            r == selected(self@.config, candidates@.unref()),
    {
        select(&self.config, candidates)
    }

    /// The real device envelope of one request, or zero when its shape is permanently
    /// infeasible.
    ///
    /// An infeasible head is rejected by [`Self::select_batch`] before any reservation is
    /// attempted, so the zero here never covers executing work.
    #[must_use]
    pub fn retained_bytes(&self, input: &EncoderRequest) -> (r: u64)
        ensures
            r == reserved_bytes(self@.config, input@.token_ids.len() as int),
    {
        match self.request_bytes(input.sequence()) {
            Ok(bytes) => bytes,
            Err(_) => 0,
        }
    }

    /// Plan one request: its shape, the buffers to allocate and the steps to enqueue.
    ///
    /// # Errors
    /// Returns [`EncoderError`] for an invalid request.
    pub fn plan(&self, request: &EncoderRequest) -> (r: Result<SubmissionPlan, EncoderError>)
        ensures
            match execution_defect(self@.config, request@) {
                Some(constraint) => r == Err::<SubmissionPlan, EncoderError>(
                    EncoderError::InvalidRequest(constraint),
                ),
                None => {
                    &&& r is Ok
                    &&& r->Ok_0.shape@ == shape_view(
                        self@.config,
                        request@.token_ids.len() as int,
                    )
                    &&& r->Ok_0.lengths == BufferLengths::needed(r->Ok_0.shape@)
                    &&& r->Ok_0.steps@ == forward_steps(
                        r->Ok_0.shape@.sequence,
                        self@.config.num_hidden_layers as nat,
                    )
                },
            },
    {
        match shape_of(&self.config, request) {
            Ok(shape) => Ok(
                SubmissionPlan {
                    shape,
                    lengths: BufferLengths::of_shape(shape),
                    steps: forward_pass(shape, self.config.num_hidden_layers),
                },
            ),
            Err(constraint) => Err(EncoderError::InvalidRequest(constraint)),
        }
    }

    /// Keep device work that nobody consumes, with the charge covering it.
    pub fn quarantine(&mut self, submission: S, lease: Option<PoolLease>)
        ensures
            final(self)@ == (EncoderView {
                retired: old(self)@.retired.push(Retired { submission, lease }),
                ..old(self)@
            }),
    {
        self.retired.push(Retired { submission, lease });
    }

    /// Keep the storage of outputs, with the charges covering it.
    fn keep(&mut self, outputs: Vec<JobOutput<S>>)
        ensures
            final(self)@ == (EncoderView {
                retired: old(self)@.retired + retired_of(outputs@),
                ..old(self)@
            }),
    {
        let ghost all = outputs@;
        for output in it: outputs
            invariant
                it.seq() == all,
                self@ == (EncoderView {
                    retired: old(self)@.retired + retired_of(all.take(it.index() as int)),
                    ..old(self)@
                }),
        {
            let ghost at = it.index() as int;
            assert(output == all[at]);
            let (_request, submission, lease) = output.into_parts();
            self.quarantine(submission, Some(lease));
            assert(self@.retired =~= old(self)@.retired + retired_of(all.take(at + 1)));
        }
        assert(all.take(all.len() as int) =~= all);
    }

    /// Keep output the runtime cannot commit, with the charges covering it, and drain at once
    /// where `completed` says that completion is established.
    ///
    /// The runtime calls this when the returned results do not match its work, so nothing
    /// may be delivered. Storage and charge wait here for a proven drain instead of
    /// returning to the pool while the device may still write them. What was drained is
    /// returned.
    pub fn retire(
        &mut self,
        pool: &mut BytePool,
        outputs: Vec<JobOutput<S>>,
        completed: bool,
    ) -> (r: Vec<S>)
        requires
            completed ==> all_of_pool(
                old(self)@.retired + retired_of(outputs@),
                old(pool)@.identity(),
            ),
        ensures
            ({
                let kept = old(self)@.retired + retired_of(outputs@);
                if completed {
                    &&& r@ == kept.map_values(|entry: Retired<S>| entry.submission)
                    &&& final(self)@ == (EncoderView {
                        retired: Seq::<Retired<S>>::empty(),
                        ..old(self)@
                    })
                    &&& final(pool)@ == drained(old(pool)@, kept)
                } else {
                    &&& r@.len() == 0
                    &&& final(self)@ == (EncoderView { retired: kept, ..old(self)@ })
                    &&& final(pool)@ == old(pool)@
                }
            }),
    {
        self.keep(outputs);
        self.drain_retirement(pool, completed)
    }

    /// Whether every charge kept here is of the pool.
    #[must_use]
    pub fn keeps_only(&self, pool: &BytePool) -> (r: bool)
        ensures
            r == all_of_pool(self@.retired, pool@.identity()),
    {
        let mut index: usize = 0;
        while index < self.retired.len()
            invariant
                index <= self.retired@.len(),
                forall|i: int|
                    0 <= i < index ==> match (#[trigger] self.retired@[i]).lease {
                        Some(lease) => lease@.pool == pool@.identity(),
                        None => true,
                    },
            decreases self.retired@.len() - index,
        {
            if let Some(lease) = &self.retired[index].lease {
                if !pool.granted_by_this(lease) {
                    return false;
                }
            }
            index += 1;
        }
        true
    }

    /// Settle an enqueue that failed part of the way through a batch.
    ///
    /// Anything already on the device keeps its storage and its charge here. The failing
    /// request keeps its reservation only if it created storage; otherwise the reservation
    /// goes back to the pool, because no storage covers it. So do the reservations of the
    /// requests that were not reached. The runtime is told that the outcome is uncertain
    /// where any storage exists, and that the work was refused where none does.
    pub fn settle_failure(
        &mut self,
        pool: &mut BytePool,
        enqueued: Vec<JobOutput<S>>,
        failure: EnqueueFailure<S>,
        lease: PoolLease,
        unreached: Vec<PoolLease>,
    ) -> (r: EnqueueError<EncoderError>)
        requires
            lease@.pool == old(pool)@.identity(),
            forall|i: int|
                0 <= i < unreached@.len() ==> (#[trigger] unreached@[i])@.pool == old(
                    pool,
                )@.identity(),
        ensures
            r == (if enqueued@.len() > 0 || failure.storage is Some {
                EnqueueError::Uncertain(failure.error)
            } else {
                EnqueueError::Refused(failure.error)
            }),
            match failure.storage {
                Some(submission) => {
                    &&& final(pool)@ == given_back(old(pool)@, unreached@)
                    &&& final(self)@ == (EncoderView {
                        retired: old(self)@.retired.push(
                            Retired { submission, lease: Some(lease) },
                        ) + retired_of(enqueued@),
                        ..old(self)@
                    })
                },
                None => {
                    &&& final(pool)@ == given_back(
                        old(pool)@.released(lease@.bytes),
                        unreached@,
                    )
                    &&& final(self)@ == (EncoderView {
                        retired: old(self)@.retired + retired_of(enqueued@),
                        ..old(self)@
                    })
                },
            },
    {
        let uncertain = enqueued.len() > 0 || failure.owns_storage();
        match failure.storage {
            Some(submission) => self.quarantine(submission, Some(lease)),
            None => pool.release(lease),
        }
        let ghost before = pool@;
        let ghost all = unreached@;
        for charge in it: unreached
            invariant
                it.seq() == all,
                pool@ == given_back(before, all.take(it.index() as int)),
                pool@.identity() == before.identity(),
                forall|i: int|
                    0 <= i < all.len() ==> (#[trigger] all[i])@.pool == before.identity(),
        {
            let ghost at = it.index() as int;
            assert(charge == all[at]);
            proof {
                assert(all.take(at + 1).drop_last() =~= all.take(at));
                assert(all.take(at + 1).last() == all[at]);
            }
            pool.release(charge);
        }
        assert(all.take(all.len() as int) =~= all);
        self.keep(enqueued);
        if uncertain {
            EnqueueError::Uncertain(failure.error)
        } else {
            EnqueueError::Refused(failure.error)
        }
    }

    /// Requests whose device work is kept here.
    #[must_use]
    pub fn quarantined_requests(&self) -> (r: usize)
        ensures
            r == self@.retired.len(),
    {
        self.retired.len()
    }

    /// Pool bytes that the device work kept here holds reserved; the largest count where
    /// they are more.
    #[must_use]
    pub fn quarantined_charge(&self) -> (r: u64)
        ensures
            r == (if retired_charge(self@.retired) <= u64::MAX {
                retired_charge(self@.retired)
            } else {
                u64::MAX as int
            }),
    {
        let mut total: u64 = 0;
        let mut index: usize = 0;
        while index < self.retired.len()
            invariant
                index <= self.retired@.len(),
                total == (if retired_charge(self.retired@.take(index as int)) <= u64::MAX {
                    retired_charge(self.retired@.take(index as int))
                } else {
                    u64::MAX as int
                }),
            decreases self.retired@.len() - index,
        {
            let bytes: u64 = match &self.retired[index].lease {
                Some(lease) => lease.bytes(),
                None => 0,
            };
            proof {
                let next = self.retired@.take(index + 1);
                assert(next.drop_last() =~= self.retired@.take(index as int));
                assert(next.last() == self.retired@[index as int]);
            }
            total = if bytes <= u64::MAX - total {
                total + bytes
            } else {
                u64::MAX
            };
            index += 1;
        }
        proof {
            assert(self.retired@.take(index as int) =~= self.retired@);
        }
        total
    }

    /// Give up the device work kept here, once `completed` says that its completion is
    /// established: every charge goes back to the pool together with its storage, which is
    /// returned. Without that proof nothing moves.
    pub fn drain_retirement(&mut self, pool: &mut BytePool, completed: bool) -> (r: Vec<S>)
        requires
            completed ==> all_of_pool(old(self)@.retired, old(pool)@.identity()),
        ensures
            !completed ==> r@.len() == 0 && final(self)@ == old(self)@ && final(pool)@
                == old(pool)@,
            completed ==> {
                &&& r@ == old(self)@.retired.map_values(|entry: Retired<S>| entry.submission)
                &&& final(self)@ == (EncoderView {
                    retired: Seq::<Retired<S>>::empty(),
                    ..old(self)@
                })
                &&& final(pool)@ == drained(old(pool)@, old(self)@.retired)
            },
    {
        let mut storage: Vec<S> = Vec::new();
        if !completed {
            return storage;
        }
        let mut retired: Vec<Retired<S>> = Vec::new();
        core::mem::swap(&mut retired, &mut self.retired);
        let ghost all = retired@;
        for entry in it: retired
            invariant
                it.seq() == all,
                pool@ == drained(old(pool)@, all.take(it.index() as int)),
                pool@.identity() == old(pool)@.identity(),
                all_of_pool(all, old(pool)@.identity()),
                storage@ == all.take(it.index() as int).map_values(
                    |entry: Retired<S>| entry.submission,
                ),
        {
            let ghost at = it.index() as int;
            assert(entry == all[at]);
            proof {
                assert(all.take(at + 1).drop_last() =~= all.take(at));
                assert(all.take(at + 1).last() == all[at]);
            }
            if let Some(lease) = entry.lease {
                pool.release(lease);
            }
            storage.push(entry.submission);
            assert(storage@ =~= all.take(at + 1).map_values(
                |entry: Retired<S>| entry.submission,
            ));
        }
        assert(all.take(all.len() as int) =~= all);
        storage
    }
}

/// One request's device state, owned until the submission is dropped. `B` is its buffers.
#[derive(Debug)]
pub struct EncoderSubmission<B> {
    shape: EncoderShape,
    lengths: BufferLengths,
    buffers: B,
}

/// What a submission holds.
#[verifier::ext_equal]
pub struct SubmissionView<B> {
    pub shape: EncoderShape,
    pub lengths: BufferLengths,
    pub buffers: B,
}

impl<B> View for EncoderSubmission<B> {
    type V = SubmissionView<B>;

    closed spec fn view(&self) -> SubmissionView<B> {
        SubmissionView { shape: self.shape, lengths: self.lengths, buffers: self.buffers }
    }
}

impl<B> EncoderSubmission<B> {
    #[verifier::type_invariant]
    spec fn inv(self) -> bool {
        self@.lengths.floats() <= usize::MAX && self@.lengths.ids() <= usize::MAX
    }

    /// A submission of the buffers that exist, with the counts they were allocated with.
    #[must_use]
    pub fn new(shape: EncoderShape, lengths: BufferLengths, buffers: B) -> (r: Self)
        requires
            lengths.floats() <= usize::MAX,
            lengths.ids() <= usize::MAX,
        ensures
            r@ == (SubmissionView { shape, lengths, buffers }),
    {
        EncoderSubmission { shape, lengths, buffers }
    }

    /// The concrete shape this submission was launched with.
    #[must_use]
    pub fn shape(&self) -> (r: EncoderShape)
        ensures
            r == self@.shape,
    {
        self.shape
    }

    /// Bytes this submission actually holds on the device.
    ///
    /// Counted from the buffers that exist rather than from the prediction, so a device
    /// test can prove that the envelope a pool was charged for equals the storage it
    /// covers.
    #[must_use]
    pub fn device_bytes(&self) -> (r: u64)
        ensures
            r == (if 4 * (self@.lengths.floats() + self@.lengths.ids()) <= usize::MAX {
                4 * (self@.lengths.floats() + self@.lengths.ids())
            } else {
                usize::MAX as int
            }),
    {
        proof {
            use_type_invariant(self);
        }
        self.lengths.device_bytes()
    }

    #[must_use]
    pub fn buffers(&self) -> (r: &B)
        ensures
            *r == self@.buffers,
    {
        &self.buffers
    }
}

/// The bytes reserved for an executable request are the bytes of the storage it will hold:
/// the reservation, the shape's prediction and the count over the planned buffers agree.
pub proof fn law_reservations_cover_the_storage(config: BertConfig, request: EncoderRequestView)
    requires
        request.token_ids.len() <= usize::MAX,
        execution_defect(config, request) is None,
    ensures
        ({
            let sequence = request.token_ids.len() as int;
            let lengths = BufferLengths::needed(shape_view(config, sequence));
            &&& reserved_bytes(config, sequence) == envelope_bytes(config, sequence)
            &&& reserved_bytes(config, sequence) == 4 * (lengths.floats() + lengths.ids())
            &&& reserved_bytes(config, sequence) > 0
        }),
{
    let sequence = request.token_ids.len() as int;
    assert(0 <= sequence * config.hidden_size && 0 <= sequence * config.intermediate_size)
        by (nonlinear_arith)
        requires
            0 <= sequence,
    ;
}

/// Storage and the charge covering it are never separated: settling a failed enqueue keeps
/// every charge of storage that exists, so the charges kept here grow by exactly those of
/// the retired work, and the pool gets back only a charge that covers no storage.
pub proof fn law_storage_keeps_its_charge<S>(
    retired: Seq<Retired<S>>,
    enqueued: Seq<JobOutput<S>>,
    failed: Option<Retired<S>>,
)
    ensures
        ({
            let kept = match failed {
                Some(entry) => retired.push(entry),
                None => retired,
            } + retired_of(enqueued);
            &&& kept.len() == retired.len() + enqueued.len() + if failed is Some {
                1int
            } else {
                0
            }
            &&& retired_charge(kept) == retired_charge(retired) + retired_charge(
                retired_of(enqueued),
            ) + match failed {
                Some(entry) => charge(entry.lease),
                None => 0,
            }
        }),
{
    let base = match failed {
        Some(entry) => retired.push(entry),
        None => retired,
    };
    if let Some(entry) = failed {
        assert(base.drop_last() =~= retired);
    }
    lemma_retired_charge_adds(base, retired_of(enqueued));
}

proof fn lemma_retired_charge_adds<S>(first: Seq<Retired<S>>, second: Seq<Retired<S>>)
    ensures
        retired_charge(first + second) == retired_charge(first) + retired_charge(second),
    decreases second.len(),
{
    if second.len() == 0 {
        assert(first + second =~= first);
    } else {
        lemma_retired_charge_adds(first, second.drop_last());
        assert((first + second).drop_last() =~= first + second.drop_last());
        assert((first + second).last() == second.last());
    }
}

/// Draining gives the pool back exactly the charges that were kept.
pub proof fn law_draining_returns_every_charge<S>(pool: PoolView, retired: Seq<Retired<S>>)
    requires
        retired_charge(retired) <= pool.granted,
    ensures
        drained(pool, retired).granted == pool.granted - retired_charge(retired),
    decreases retired.len(),
{
    if retired.len() > 0 {
        law_draining_returns_every_charge(pool, retired.drop_last());
    }
}

} // verus!
