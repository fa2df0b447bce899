//! Compute-backend capability and execution boundary.

use crate::engine::device::DeviceId;
use crate::engine::execution::{
    segment_views, ExecutionBatch, ExecutionBatchEvent, ExecutionPlan, ExecutionPlanView,
    ExecutionSegment, ExecutionSegmentView, PlanError,
};
use crate::engine::state::{
    location_of, position_of, satisfies, InferenceStateSet, StateHandle, StateLocation,
};
use crate::engine::state_manager::held;
use crate::engine::tensor::{DataType, Quantization};
use crate::text::{blank, is_blank};
use vstd::prelude::*;

verus! {

/// Stable backend identity; never blank.
#[derive(Debug, Hash, PartialEq, Eq)]
pub struct BackendId(String);

impl View for BackendId {
    type V = Seq<char>;

    closed spec fn view(&self) -> Seq<char> {
        self.0@
    }
}

impl Clone for BackendId {
    fn clone(&self) -> (r: Self)
        ensures
            r@ == self@,
    {
        proof {
            use_type_invariant(self);
        }
        BackendId(self.0.clone())
    }
}

impl BackendId {
    #[verifier::type_invariant]
    spec fn named(self) -> bool {
        !blank(self.0@)
    }

    /// # Errors
    /// Returns [`BackendIdError`] when `value` is empty or whitespace-only.
    pub fn new(value: &str) -> (r: Result<Self, BackendIdError>)
        ensures
            blank(value@) ==> r == Err::<BackendId, BackendIdError>(BackendIdError),
            !blank(value@) ==> r is Ok && r->Ok_0@ == value@,
    {
        if is_blank(value) {
            return Err(BackendIdError);
        }
        Ok(BackendId(value.to_owned()))
    }

    #[must_use]
    pub fn as_str(&self) -> (r: &str)
        ensures
            r@ == self@,
            !blank(r@),
    {
        proof {
            use_type_invariant(self);
        }
        self.0.as_str()
    }

    /// Whether two identities are the same.
    #[must_use]
    pub fn same(&self, other: &BackendId) -> (r: bool)
        ensures
            r == (self@ == other@),
    {
        self.0 == other.0
    }
}

#[derive(Clone, Copy, Debug, Hash, PartialEq, Eq, Structural)]
pub struct BackendIdError;

/// Identity of one submission to a backend; never zero.
#[derive(Clone, Copy, Debug, Hash, PartialEq, Eq, Structural)]
pub struct BackendSubmissionId(u64);

impl View for BackendSubmissionId {
    type V = u64;

    closed spec fn view(&self) -> u64 {
        self.0
    }
}

impl BackendSubmissionId {
    #[verifier::type_invariant]
    spec fn nonzero(self) -> bool {
        self.0 != 0
    }

    #[must_use]
    pub fn new(value: u64) -> (r: Option<Self>)
        ensures
            value == 0 ==> r is None,
            value != 0 ==> r is Some && r->Some_0@ == value,
    {
        if value == 0 {
            None
        } else {
            Some(BackendSubmissionId(value))
        }
    }

    #[must_use]
    pub fn get(self) -> (r: u64)
        ensures
            r == self@,
            r != 0,
    {
        proof {
            use_type_invariant(&self);
        }
        self.0
    }

    /// An identity is determined by its number.
    pub proof fn lemma_determined(a: Self, b: Self)
        ensures
            a@ == b@ <==> a == b,
    {
    }
}

#[derive(Clone, Copy, Debug, Hash, PartialEq, Eq, Structural)]
pub enum BackendKind {
    Cpu,
    Cuda,
    Metal,
    Other,
}

/// Backend features are facts supplied by a concrete implementation, not policy
/// preferences.
#[derive(Debug, PartialEq, Eq)]
pub struct BackendFeatures {
    data_types: Vec<DataType>,
    quantizations: Vec<Quantization>,
    graph_capture: bool,
    streams: bool,
}

/// What features hold.
#[verifier::ext_equal]
pub struct BackendFeaturesView {
    pub data_types: Seq<DataType>,
    pub quantizations: Seq<Quantization>,
    pub graph_capture: bool,
    pub streams: bool,
}

impl View for BackendFeatures {
    type V = BackendFeaturesView;

    closed spec fn view(&self) -> BackendFeaturesView {
        BackendFeaturesView {
            data_types: self.data_types@,
            quantizations: self.quantizations@,
            graph_capture: self.graph_capture,
            streams: self.streams,
        }
    }
}

impl Clone for BackendFeatures {
    fn clone(&self) -> (r: Self)
        ensures
            r@ == self@,
    {
        let data_types = self.data_types.clone();
        assert(data_types@ =~= self.data_types@);
        let quantizations = self.quantizations.clone();
        assert(quantizations@ =~= self.quantizations@);
        BackendFeatures {
            data_types,
            quantizations,
            graph_capture: self.graph_capture,
            streams: self.streams,
        }
    }
}

impl BackendFeatures {
    #[must_use]
    pub fn supports_graph_capture(&self) -> (r: bool)
        ensures
            r == self@.graph_capture,
    {
        self.graph_capture
    }

    #[must_use]
    pub fn supports_streams(&self) -> (r: bool)
        ensures
            r == self@.streams,
    {
        self.streams
    }
}

impl BackendFeatures {
    #[must_use]
    pub fn new(
        data_types: Vec<DataType>,
        quantizations: Vec<Quantization>,
        graph_capture: bool,
        streams: bool,
    ) -> (r: Self)
        ensures
            r@ == (BackendFeaturesView {
                data_types: data_types@,
                quantizations: quantizations@,
                graph_capture,
                streams,
            }),
    {
        BackendFeatures { data_types, quantizations, graph_capture, streams }
    }

    #[must_use]
    pub fn supports_dtype(&self, dtype: DataType) -> (r: bool)
        ensures
            r == self@.data_types.contains(dtype),
    {
        let mut index: usize = 0;
        while index < self.data_types.len()
            invariant
                index <= self.data_types@.len(),
                forall|i: int| 0 <= i < index ==> #[trigger] self@.data_types[i] != dtype,
            decreases self.data_types.len() - index,
        {
            if self.data_types[index] == dtype {
                assert(self@.data_types[index as int] == dtype);
                return true;
            }
            index += 1;
        }
        false
    }

    #[must_use]
    pub fn supports_quantization(&self, quantization: Quantization) -> (r: bool)
        ensures
            r == self@.quantizations.contains(quantization),
    {
        let mut index: usize = 0;
        while index < self.quantizations.len()
            invariant
                index <= self.quantizations@.len(),
                forall|i: int| 0 <= i < index ==> #[trigger] self@.quantizations[i] != quantization,
            decreases self.quantizations.len() - index,
        {
            if self.quantizations[index] == quantization {
                assert(self@.quantizations[index as int] == quantization);
                return true;
            }
            index += 1;
        }
        false
    }
}

/// Capabilities are facts supplied by a concrete device and backend. The planner can use
/// them to reject an invalid execution plan.
#[derive(Debug, PartialEq, Eq)]
pub struct BackendCapabilities {
    backend: BackendId,
    device: DeviceId,
    kind: BackendKind,
    memory_bytes: u64,
    features: BackendFeatures,
}

/// What capabilities hold.
#[verifier::ext_equal]
pub struct BackendCapabilitiesView {
    pub backend: Seq<char>,
    pub device: DeviceId,
    pub kind: BackendKind,
    pub memory_bytes: u64,
    pub features: BackendFeaturesView,
}

impl View for BackendCapabilities {
    type V = BackendCapabilitiesView;

    closed spec fn view(&self) -> BackendCapabilitiesView {
        BackendCapabilitiesView {
            backend: self.backend@,
            device: self.device,
            kind: self.kind,
            memory_bytes: self.memory_bytes,
            features: self.features@,
        }
    }
}

impl Clone for BackendCapabilities {
    fn clone(&self) -> (r: Self)
        ensures
            r@ == self@,
    {
        BackendCapabilities {
            backend: self.backend.clone(),
            device: self.device,
            kind: self.kind,
            memory_bytes: self.memory_bytes,
            features: self.features.clone(),
        }
    }
}

impl BackendCapabilities {
    #[must_use]
    pub fn backend(&self) -> (r: &BackendId)
        ensures
            r@ == self@.backend,
    {
        &self.backend
    }

    #[must_use]
    pub fn device(&self) -> (r: DeviceId)
        ensures
            r == self@.device,
    {
        self.device
    }

    #[must_use]
    pub fn kind(&self) -> (r: BackendKind)
        ensures
            r == self@.kind,
    {
        self.kind
    }

    #[must_use]
    pub fn memory_bytes(&self) -> (r: u64)
        ensures
            r == self@.memory_bytes,
    {
        self.memory_bytes
    }
}

impl BackendCapabilities {
    #[must_use]
    pub fn new(
        backend: BackendId,
        device: DeviceId,
        kind: BackendKind,
        memory_bytes: u64,
        features: BackendFeatures,
    ) -> (r: Self)
        ensures
            r@ == (BackendCapabilitiesView {
                backend: backend@,
                device,
                kind,
                memory_bytes,
                features: features@,
            }),
    {
        BackendCapabilities { backend, device, kind, memory_bytes, features }
    }

    #[must_use]
    pub fn supports_dtype(&self, dtype: DataType) -> (r: bool)
        ensures
            r == self@.features.data_types.contains(dtype),
    {
        self.features.supports_dtype(dtype)
    }

    #[must_use]
    pub fn supports_quantization(&self, quantization: Quantization) -> (r: bool)
        ensures
            r == self@.features.quantizations.contains(quantization),
    {
        self.features.supports_quantization(quantization)
    }

    #[must_use]
    pub fn supports_graph_capture(&self) -> (r: bool)
        ensures
            r == self@.features.graph_capture,
    {
        self.features.supports_graph_capture()
    }

    #[must_use]
    pub fn supports_streams(&self) -> (r: bool)
        ensures
            r == self@.features.streams,
    {
        self.features.supports_streams()
    }
}

#[derive(Debug, PartialEq, Eq)]
pub enum BackendError {
    Unsupported(&'static str),
    PlanMismatch,
    InvalidPlan(PlanError),
    StateMismatch(&'static str),
    StateCountMismatch,
    UnknownSubmission(BackendSubmissionId),
    /// A submission outlasted every poll.
    WaitExhausted,
    ExecutionFailed(String),
}

/// Why states do not satisfy a segment on a device, if they do not.
pub open spec fn state_defect(
    device: DeviceId,
    segment: ExecutionSegmentView,
    states: Seq<StateHandle>,
) -> Option<&'static str> {
    if exists|i: int|
        0 <= i < segment.state_requirements.len() && !satisfies(
            states,
            #[trigger] segment.state_requirements[i],
        ) {
        Some("segment state requirement is missing or has the wrong layout")
    } else if position_of(states) is Some && position_of(states) != Some(segment.state_position) {
        Some("state is at a different prefix position")
    } else if location_of(states) matches Some(StateLocation::Device(other)) && other != device {
        Some("state is resident on a different device")
    } else {
        None
    }
}

/// The defect of the first pair of segment and states from `i` on that do not fit.
pub open spec fn first_state_defect(
    device: DeviceId,
    batch: Seq<ExecutionSegmentView>,
    states: Seq<Seq<StateHandle>>,
    i: int,
) -> Option<&'static str>
    decreases batch.len() - i,
{
    if i < 0 || i >= batch.len() {
        None
    } else if state_defect(device, batch[i], states[i]) is Some {
        state_defect(device, batch[i], states[i])
    } else {
        first_state_defect(device, batch, states, i + 1)
    }
}

/// Why a backend does not execute a batch, if it does not.
pub open spec fn execution_defect(
    capabilities: BackendCapabilitiesView,
    plan: ExecutionPlanView,
    batch: Seq<ExecutionSegmentView>,
    states: Seq<Seq<StateHandle>>,
) -> Option<BackendError> {
    if plan.backend != capabilities.backend || plan.device != capabilities.device {
        Some(BackendError::PlanMismatch)
    } else if plan.batch_defect(batch, 0) is Some {
        Some(BackendError::InvalidPlan(plan.batch_defect(batch, 0)->Some_0))
    } else if batch.len() != states.len() {
        Some(BackendError::StateCountMismatch)
    } else {
        match first_state_defect(capabilities.device, batch, states, 0) {
            Some(reason) => Some(BackendError::StateMismatch(reason)),
            None => None,
        }
    }
}

fn check_state(device: DeviceId, segment: &ExecutionSegment, state: &InferenceStateSet) -> (r:
    Option<&'static str>)
    ensures
        r == state_defect(device, segment@, state@),
{
    let required = segment.state_requirements();
    let mut index: usize = 0;
    while index < required.len()
        invariant
            index <= required@.len(),
            required@ == segment@.state_requirements,
            forall|i: int| 0 <= i < index ==> satisfies(state@, #[trigger] required@[i]),
        decreases required.len() - index,
    {
        if !state.contains(required[index]) {
            assert(!satisfies(state@, segment@.state_requirements[index as int]));
            return Some("segment state requirement is missing or has the wrong layout");
        }
        index += 1;
    }
    if let Some(position) = state.token_position() {
        if position != segment.state_position() {
            return Some("state is at a different prefix position");
        }
    }
    if let Some(StateLocation::Device(other)) = state.location() {
        if other != device {
            return Some("state is resident on a different device");
        }
    }
    None
}

/// Validate plan, phase, backend, device and state dependencies before dispatch.
///
/// # Errors
/// Returns an error when the plan is not prepared for this backend or the states do not
/// satisfy the segments.
pub fn validate_execution(
    capabilities: &BackendCapabilities,
    plan: &ExecutionPlan,
    batch: &ExecutionBatch,
    states: &[InferenceStateSet],
) -> (r: Result<(), BackendError>)
    ensures
        r == match execution_defect(capabilities@, plan@, batch@, held(states@)) {
            Some(error) => Err::<(), BackendError>(error),
            None => Ok(()),
        },
{
    if !plan.backend().same(capabilities.backend()) || plan.device() != capabilities.device() {
        return Err(BackendError::PlanMismatch);
    }
    match plan.validate_batch(batch) {
        Ok(()) => {},
        Err(error) => {
            return Err(BackendError::InvalidPlan(error));
        },
    }
    if batch.len() != states.len() {
        return Err(BackendError::StateCountMismatch);
    }
    let device = capabilities.device();
    let segments = batch.segments();
    let mut index: usize = 0;
    while index < segments.len()
        invariant
            index <= segments@.len(),
            segments@.len() == states@.len(),
            device == capabilities@.device,
            plan@.backend == capabilities@.backend,
            plan@.device == capabilities@.device,
            plan@.batch_defect(batch@, 0) is None,
            segment_views(segments@) == batch@,
            first_state_defect(device, batch@, held(states@), 0) == first_state_defect(
                device,
                batch@,
                held(states@),
                index as int,
            ),
        decreases segments.len() - index,
    {
        assert(batch@[index as int] == segments@[index as int]@);
        assert(held(states@)[index as int] == states@[index as int]@);
        match check_state(device, &segments[index], &states[index]) {
            Some(reason) => {
                return Err(BackendError::StateMismatch(reason));
            },
            None => {},
        }
        index += 1;
    }
    Ok(())
}

/// What a wait returns for the answer of its last poll.
pub open spec fn waited_for(answer: Result<Option<ExecutionBatchEvent>, BackendError>) -> Result<
    ExecutionBatchEvent,
    BackendError,
> {
    match answer {
        Ok(Some(event)) => Ok(event),
        Ok(None) => Err(BackendError::WaitExhausted),
        Err(error) => Err(error),
    }
}

/// Whether a wait polled its way from one backend to another: each of the polls but the last
/// answered "pending", the last gave this answer, and only as many pending answers as can be
/// counted end it without a completion.
pub open spec fn waited_through<B>(
    polls: spec_fn(B, B, Result<Option<ExecutionBatchEvent>, BackendError>) -> bool,
    before: B,
    trace: Seq<B>,
    after: B,
    answer: Result<Option<ExecutionBatchEvent>, BackendError>,
) -> bool {
    &&& trace.len() > 0
    &&& trace[0] == before
    &&& forall|i: int|
        0 <= i < trace.len() - 1 ==> polls(#[trigger] trace[i], trace[i + 1], Ok(None))
    &&& polls(trace.last(), after, answer)
    &&& answer == Ok::<Option<ExecutionBatchEvent>, BackendError>(None) ==> trace.len()
        == u64::MAX
}

/// Whether a wait that polled until it was answered may leave behind this backend and give
/// this result.
pub open spec fn waited_by_polling<B>(
    polls: spec_fn(B, B, Result<Option<ExecutionBatchEvent>, BackendError>) -> bool,
    before: B,
    after: B,
    r: Result<ExecutionBatchEvent, BackendError>,
) -> bool {
    exists|trace: Seq<B>, answer: Result<Option<ExecutionBatchEvent>, BackendError>| #[trigger]
        waited_through(polls, before, trace, after, answer) && r == waited_for(answer)
}

/// Whether this is the answer to a batch that is held against capabilities alone.
pub open spec fn fits_capabilities(
    capabilities: BackendCapabilitiesView,
    plan: ExecutionPlanView,
    batch: Seq<ExecutionSegmentView>,
    states: Seq<Seq<StateHandle>>,
    result: Result<(), BackendError>,
) -> bool {
    match execution_defect(capabilities, plan, batch, states) {
        Some(error) => result == Err::<(), BackendError>(error),
        None => result is Ok,
    }
}

/// A backend owns concrete device execution. State remains an explicit input so that
/// providers cannot silently replace recurrent state with ordinary attention state.
///
/// What submission, polling and release do is the backend's own affair: the relations only
/// name it, so that a contract can say what was handed over and what came back. A verified
/// implementation says here what it does.
pub trait ComputeBackend: Sized + Send {
    /// What [`Self::capabilities`] holds.
    open spec fn spec_capabilities(&self) -> BackendCapabilitiesView {
        arbitrary()
    }

    /// Whether [`Self::submit`] may answer this batch over these states with this result,
    /// leaving behind this backend and these states.
    open spec fn submits(
        &self,
        plan: ExecutionPlanView,
        batch: Seq<ExecutionSegmentView>,
        states: Seq<Seq<StateHandle>>,
        after: Self,
        states_after: Seq<Seq<StateHandle>>,
        result: Result<BackendSubmissionId, BackendError>,
    ) -> bool {
        arbitrary()
    }

    /// Whether [`Self::poll`] may answer with this result and leave behind this backend.
    open spec fn polls(
        &self,
        submission: BackendSubmissionId,
        after: Self,
        result: Result<Option<ExecutionBatchEvent>, BackendError>,
    ) -> bool {
        arbitrary()
    }

    /// Whether [`Self::release_inference_state`] may, other than by doing nothing, answer with
    /// this result and leave behind this backend. A backend with physical state says here what
    /// it does.
    open spec fn frees(
        &self,
        state: Seq<StateHandle>,
        after: Self,
        result: Result<(), BackendError>,
    ) -> bool {
        false
    }

    /// Whether [`Self::validate_execution`] may, other than by the capabilities alone, answer
    /// with this result. A backend that asks more of a batch says here what.
    open spec fn screens(
        &self,
        plan: ExecutionPlanView,
        batch: Seq<ExecutionSegmentView>,
        states: Seq<Seq<StateHandle>>,
        result: Result<(), BackendError>,
    ) -> bool {
        false
    }

    /// Whether [`Self::wait`] may, other than by polling, end with this result and leave
    /// behind this backend. A backend that blocks on its device says here what it does.
    open spec fn waits(
        &self,
        submission: BackendSubmissionId,
        after: Self,
        result: Result<ExecutionBatchEvent, BackendError>,
    ) -> bool {
        false
    }

    fn capabilities(&self) -> (r: &BackendCapabilities)
        ensures
            r@ == self.spec_capabilities(),
    ;

    /// Release physical state associated with one logical set of states. Unless it is
    /// overridden there is no physical state, and nothing to do.
    ///
    /// # Errors
    /// Returns a backend error when the state cannot be released.
    fn release_inference_state(&mut self, state: &InferenceStateSet) -> (r: Result<
        (),
        BackendError,
    >)
        ensures
            (r is Ok && *final(self) == *old(self)) || old(self).frees(state@, *final(self), r),
        default_ensures
            r is Ok,
            *final(self) == *old(self),
    {
        Ok(())
    }

    /// Validate plan, phase, backend, device and state dependencies. Concrete
    /// implementations should call this from [`Self::submit`].
    ///
    /// # Errors
    /// Returns an error when the plan is not prepared for this backend or the states do not
    /// satisfy the segments.
    fn validate_execution(
        &self,
        plan: &ExecutionPlan,
        batch: &ExecutionBatch,
        states: &[InferenceStateSet],
    ) -> (r: Result<(), BackendError>)
        ensures
            fits_capabilities(self.spec_capabilities(), plan@, batch@, held(states@), r)
                || self.screens(plan@, batch@, held(states@), r),
        default_ensures
            fits_capabilities(self.spec_capabilities(), plan@, batch@, held(states@), r),
    {
        validate_execution(self.capabilities(), plan, batch, states)
    }

    /// Take ownership of a batch. Returning an error means that no work which could still
    /// access the states was retained.
    ///
    /// # Errors
    /// Returns a backend error when the plan, batch or states cannot be executed.
    fn submit(
        &mut self,
        plan: &ExecutionPlan,
        batch: &ExecutionBatch,
        states: &mut [InferenceStateSet],
    ) -> (r: Result<BackendSubmissionId, BackendError>)
        ensures
            final(states)@.len() == old(states)@.len(),
            old(self).submits(
                plan@,
                batch@,
                held(old(states)@),
                *final(self),
                held(final(states)@),
                r,
            ),
    ;

    /// The completion of a submission, or `None` while it is pending.
    ///
    /// # Errors
    /// Returns a backend error for an unknown submission or a terminal failure.
    fn poll(&mut self, submission: BackendSubmissionId) -> (r: Result<
        Option<ExecutionBatchEvent>,
        BackendError,
    >)
        ensures
            old(self).polls(submission, *final(self), r),
    ;

    /// Wait until a submission completes. Unless it is overridden, this polls.
    ///
    /// # Errors
    /// Returns the backend error of a failed poll, or [`BackendError::WaitExhausted`] when
    /// the submission is still pending after as many polls as can be counted.
    fn wait(&mut self, submission: BackendSubmissionId) -> (r: Result<
        ExecutionBatchEvent,
        BackendError,
    >)
        ensures
            waited_by_polling(
                |b: Self, next: Self, given| b.polls(submission, next, given),
                *old(self),
                *final(self),
                r,
            ) || old(self).waits(submission, *final(self), r),
        default_ensures
            waited_by_polling(
                |b: Self, next: Self, given| b.polls(submission, next, given),
                *old(self),
                *final(self),
                r,
            ),
    {
        let ghost step = |b: Self, next: Self, given| b.polls(submission, next, given);
        let ghost mut trace: Seq<Self> = seq![*self];
        let mut polls: u64 = u64::MAX;
        loop
            invariant
                polls > 0,
                step == (|b: Self, next: Self, given| b.polls(submission, next, given)),
                trace.len() == u64::MAX - polls + 1,
                trace[0] == *old(self),
                trace.last() == *self,
                forall|i: int|
                    0 <= i < trace.len() - 1 ==> step(#[trigger] trace[i], trace[i + 1], Ok(None)),
            decreases polls,
        {
            let answer = self.poll(submission);
            let ghost given = answer;
            polls -= 1;
            assert(step(trace.last(), *self, given));
            match answer {
                Ok(Some(event)) => {
                    assert(waited_through(step, *old(self), trace, *self, given));
                    return Ok(event);
                },
                Ok(None) => {
                    if polls == 0 {
                        assert(waited_through(step, *old(self), trace, *self, given));
                        return Err(BackendError::WaitExhausted);
                    }
                    proof {
                        let longer = trace.push(*self);
                        assert forall|i: int| 0 <= i < longer.len() - 1 implies step(
                            #[trigger] longer[i],
                            longer[i + 1],
                            Ok(None),
                        ) by {
                            if i < trace.len() - 1 {
                                assert(step(trace[i], trace[i + 1], Ok(None)));
                            }
                        }
                        trace = longer;
                    }
                },
                Err(error) => {
                    assert(waited_through(step, *old(self), trace, *self, given));
                    return Err(error);
                },
            }
        }
    }
}

/// Whether a backend that is asked to release physical state may answer with this result and
/// leave behind this backend.
pub open spec fn freed<B: ComputeBackend>(
    backend: B,
    state: Seq<StateHandle>,
    after: B,
    result: Result<(), BackendError>,
) -> bool {
    (result is Ok && after == backend) || backend.frees(state, after, result)
}

} // verus!
