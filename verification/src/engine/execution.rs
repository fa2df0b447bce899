//! Narrow inference execution descriptions and prepared plans.

use crate::engine::backend::BackendId;
use crate::engine::device::DeviceId;
use crate::engine::model::{declares, ModelId, ModelRegionId};
use crate::engine::policy::PolicyVersion;
use crate::engine::qualification::{
    baseline_variant, ExecutionVariant, ExecutionVariantView, QualificationStatus,
};
use crate::engine::request::{RequestId, SamplingParams};
use crate::engine::residency::{ModelResidencyPlan, ModelResidencyPlanView, ResidencyLocation};
use crate::engine::state::StateRequirement;
use crate::engine::weights::{WeightBinding, WeightBindingView};
use vstd::prelude::*;

verus! {

#[derive(Clone, Copy, Debug, Hash, PartialEq, Eq, Structural)]
pub enum ExecutionPhase {
    Prefill,
    Decode,
    SpecDraft,
    SpecVerify,
    Encoder,
    MoEExpert,
}

/// The tokens that a segment reads.
#[derive(Debug, PartialEq, Eq)]
pub enum ExecutionTokenInput {
    /// A chunk of a prompt.
    Prompt(Vec<u32>),
    /// The token sampled by the preceding step.
    Decode(u32),
}

/// What a token input holds.
#[verifier::ext_equal]
pub enum TokenInputView {
    Prompt(Seq<u32>),
    Decode(u32),
}

impl View for ExecutionTokenInput {
    type V = TokenInputView;

    open spec fn view(&self) -> TokenInputView {
        match self {
            ExecutionTokenInput::Prompt(tokens) => TokenInputView::Prompt(tokens@),
            ExecutionTokenInput::Decode(token) => TokenInputView::Decode(*token),
        }
    }
}

impl Clone for ExecutionTokenInput {
    fn clone(&self) -> (r: Self)
        ensures
            r@ == self@,
    {
        match self {
            ExecutionTokenInput::Prompt(tokens) => {
                let copied = tokens.clone();
                assert(copied@ =~= tokens@);
                ExecutionTokenInput::Prompt(copied)
            },
            ExecutionTokenInput::Decode(token) => ExecutionTokenInput::Decode(*token),
        }
    }
}

impl TokenInputView {
    /// Whether the input is what a segment of this phase and size reads.
    pub open spec fn suits(self, phase: ExecutionPhase, token_count: u32) -> bool {
        match self {
            TokenInputView::Prompt(tokens) => phase is Prefill && tokens.len() == token_count,
            TokenInputView::Decode(_) => phase is Decode && token_count == 1,
        }
    }
}

impl ExecutionTokenInput {
    /// The chunk of a prompt that starts at a position.
    ///
    /// # Errors
    /// Returns [`PlanError::ZeroWork`] for an empty chunk or
    /// [`PlanError::TokenInputRange`] for one that reaches past the prompt.
    pub fn prompt(tokens: &[u32], position: u32, count: u32) -> (r: Result<Self, PlanError>)
        ensures
            count == 0 ==> r == Err::<ExecutionTokenInput, PlanError>(PlanError::ZeroWork),
            count > 0 && position + count > tokens@.len() ==> r == Err::<
                ExecutionTokenInput,
                PlanError,
            >(PlanError::TokenInputRange),
            count > 0 && position + count <= tokens@.len() ==> r is Ok && r->Ok_0@
                == TokenInputView::Prompt(
                tokens@.subrange(position as int, position + count),
            ),
    {
        if count == 0 {
            return Err(PlanError::ZeroWork);
        }
        if position as u64 + count as u64 > tokens.len() as u64 {
            return Err(PlanError::TokenInputRange);
        }
        let mut chunk: Vec<u32> = Vec::new();
        let mut index: usize = position as usize;
        let end: usize = position as usize + count as usize;
        while index < end
            invariant
                position <= index <= end <= tokens@.len(),
                chunk@ =~= tokens@.subrange(position as int, index as int),
            decreases end - index,
        {
            chunk.push(tokens[index]);
            index += 1;
        }
        Ok(ExecutionTokenInput::Prompt(chunk))
    }

    #[must_use]
    pub fn decode(token: u32) -> (r: Self)
        ensures
            r@ == TokenInputView::Decode(token),
    {
        ExecutionTokenInput::Decode(token)
    }

    /// The prompt chunk, if the input is one.
    #[must_use]
    pub fn prompt_slice(&self) -> (r: Option<&[u32]>)
        ensures
            match self@ {
                TokenInputView::Prompt(tokens) => r is Some && r->Some_0@ == tokens,
                TokenInputView::Decode(_) => r is None,
            },
    {
        match self {
            ExecutionTokenInput::Prompt(tokens) => Some(tokens.as_slice()),
            ExecutionTokenInput::Decode(_) => None,
        }
    }

    /// The decode token, if the input is one.
    #[must_use]
    pub fn decode_token(&self) -> (r: Option<u32>)
        ensures
            r == match self@ {
                TokenInputView::Prompt(_) => None,
                TokenInputView::Decode(token) => Some(token),
            },
    {
        match self {
            ExecutionTokenInput::Prompt(_) => None,
            ExecutionTokenInput::Decode(token) => Some(*token),
        }
    }
}

/// Work of one request in one submission; it is never empty.
#[derive(Debug, PartialEq)]
pub struct ExecutionSegment {
    request: RequestId,
    phase: ExecutionPhase,
    token_count: u32,
    state_position: u32,
    state_requirements: Vec<StateRequirement>,
    token_input: Option<ExecutionTokenInput>,
    sampling: Option<SamplingParams>,
}

/// What a segment holds.
#[verifier::ext_equal]
pub struct ExecutionSegmentView {
    pub request: RequestId,
    pub phase: ExecutionPhase,
    pub token_count: u32,
    pub state_position: u32,
    pub state_requirements: Seq<StateRequirement>,
    pub token_input: Option<TokenInputView>,
    pub sampling: Option<SamplingParams>,
}

impl View for ExecutionSegment {
    type V = ExecutionSegmentView;

    closed spec fn view(&self) -> ExecutionSegmentView {
        ExecutionSegmentView {
            request: self.request,
            phase: self.phase,
            token_count: self.token_count,
            state_position: self.state_position,
            state_requirements: self.state_requirements@,
            token_input: match self.token_input {
                Some(input) => Some(input@),
                None => None,
            },
            sampling: self.sampling,
        }
    }
}

impl Clone for ExecutionSegment {
    fn clone(&self) -> (r: Self)
        ensures
            r@ == self@,
    {
        proof {
            use_type_invariant(self);
        }
        let state_requirements = self.state_requirements.clone();
        assert(state_requirements@ =~= self.state_requirements@);
        let token_input: Option<ExecutionTokenInput> = match &self.token_input {
            Some(input) => Some(input.clone()),
            None => None,
        };
        ExecutionSegment {
            request: self.request,
            phase: self.phase,
            token_count: self.token_count,
            state_position: self.state_position,
            state_requirements,
            token_input,
            sampling: self.sampling,
        }
    }
}

impl ExecutionSegment {
    #[verifier::type_invariant]
    spec fn works(self) -> bool {
        self.token_count > 0
    }

    /// # Errors
    /// Returns [`PlanError::InvalidSegmentBatchSize`] unless `batch_size` is one or
    /// [`PlanError::ZeroWork`] when `token_count` is zero. Multi-request batching is
    /// represented by [`ExecutionBatch`].
    pub fn new(
        request: RequestId,
        phase: ExecutionPhase,
        batch_size: u32,
        token_count: u32,
        state_position: u32,
        state_requirements: Vec<StateRequirement>,
    ) -> (r: Result<Self, PlanError>)
        ensures
            batch_size != 1 ==> r == Err::<ExecutionSegment, PlanError>(
                PlanError::InvalidSegmentBatchSize,
            ),
            batch_size == 1 && token_count == 0 ==> r == Err::<ExecutionSegment, PlanError>(
                PlanError::ZeroWork,
            ),
            batch_size == 1 && token_count > 0 ==> r is Ok && r->Ok_0@ == (ExecutionSegmentView {
                request,
                phase,
                token_count,
                state_position,
                state_requirements: state_requirements@,
                token_input: None,
                sampling: None,
            }),
    {
        if batch_size != 1 {
            return Err(PlanError::InvalidSegmentBatchSize);
        }
        if token_count == 0 {
            return Err(PlanError::ZeroWork);
        }
        Ok(
            ExecutionSegment {
                request,
                phase,
                token_count,
                state_position,
                state_requirements,
                token_input: None,
                sampling: None,
            },
        )
    }

    /// A segment with the requirements that its plan already holds.
    ///
    /// # Errors
    /// As [`Self::new`].
    pub fn new_shared(
        request: RequestId,
        phase: ExecutionPhase,
        batch_size: u32,
        token_count: u32,
        state_position: u32,
        state_requirements: &[StateRequirement],
    ) -> (r: Result<Self, PlanError>)
        ensures
            batch_size != 1 ==> r == Err::<ExecutionSegment, PlanError>(
                PlanError::InvalidSegmentBatchSize,
            ),
            batch_size == 1 && token_count == 0 ==> r == Err::<ExecutionSegment, PlanError>(
                PlanError::ZeroWork,
            ),
            batch_size == 1 && token_count > 0 ==> r is Ok && r->Ok_0@ == (ExecutionSegmentView {
                request,
                phase,
                token_count,
                state_position,
                state_requirements: state_requirements@,
                token_input: None,
                sampling: None,
            }),
    {
        let mut copied: Vec<StateRequirement> = Vec::new();
        let mut index: usize = 0;
        while index < state_requirements.len()
            invariant
                index <= state_requirements@.len(),
                copied@ =~= state_requirements@.take(index as int),
            decreases state_requirements.len() - index,
        {
            copied.push(state_requirements[index]);
            index += 1;
        }
        assert(copied@ =~= state_requirements@);
        ExecutionSegment::new(request, phase, batch_size, token_count, state_position, copied)
    }

    /// Attach the tokens that the segment reads.
    ///
    /// # Errors
    /// Returns [`PlanError::TokenInputMismatch`] when the input is not what the segment's
    /// phase and size read.
    pub fn with_token_input(self, token_input: ExecutionTokenInput) -> (r: Result<Self, PlanError>)
        ensures
            !token_input@.suits(self@.phase, self@.token_count) ==> r == Err::<
                ExecutionSegment,
                PlanError,
            >(PlanError::TokenInputMismatch),
            token_input@.suits(self@.phase, self@.token_count) ==> r is Ok && r->Ok_0@ == (
            ExecutionSegmentView { token_input: Some(token_input@), ..self@ }),
    {
        proof {
            use_type_invariant(&self);
        }
        let suits: bool = match &token_input {
            ExecutionTokenInput::Prompt(tokens) => self.phase == ExecutionPhase::Prefill
                && tokens.len() as u64 == self.token_count as u64,
            ExecutionTokenInput::Decode(_) => self.phase == ExecutionPhase::Decode
                && self.token_count == 1,
        };
        if !suits {
            return Err(PlanError::TokenInputMismatch);
        }
        Ok(
            ExecutionSegment {
                request: self.request,
                phase: self.phase,
                token_count: self.token_count,
                state_position: self.state_position,
                state_requirements: self.state_requirements,
                token_input: Some(token_input),
                sampling: self.sampling,
            },
        )
    }

    /// Ask for an output token.
    #[must_use]
    pub fn with_sampling(self, sampling: SamplingParams) -> (r: Self)
        ensures
            r@ == (ExecutionSegmentView { sampling: Some(sampling), ..self@ }),
    {
        proof {
            use_type_invariant(&self);
        }
        ExecutionSegment {
            request: self.request,
            phase: self.phase,
            token_count: self.token_count,
            state_position: self.state_position,
            state_requirements: self.state_requirements,
            token_input: self.token_input,
            sampling: Some(sampling),
        }
    }

    #[must_use]
    pub fn request(&self) -> (r: RequestId)
        ensures
            r == self@.request,
    {
        self.request
    }

    #[must_use]
    pub fn phase(&self) -> (r: ExecutionPhase)
        ensures
            r == self@.phase,
    {
        self.phase
    }

    /// A segment describes exactly one request.
    #[must_use]
    pub fn batch_size(&self) -> (r: u32)
        ensures
            r == 1,
    {
        1
    }

    #[must_use]
    pub fn token_count(&self) -> (r: u32)
        ensures
            r == self@.token_count,
            r > 0,
    {
        proof {
            use_type_invariant(self);
        }
        self.token_count
    }

    #[must_use]
    pub fn state_position(&self) -> (r: u32)
        ensures
            r == self@.state_position,
    {
        self.state_position
    }

    #[must_use]
    pub fn state_requirements(&self) -> (r: &[StateRequirement])
        ensures
            r@ == self@.state_requirements,
    {
        self.state_requirements.as_slice()
    }

    #[must_use]
    pub fn token_input(&self) -> (r: Option<&ExecutionTokenInput>)
        ensures
            match self@.token_input {
                Some(input) => r is Some && r->Some_0@ == input,
                None => r is None,
            },
    {
        self.token_input.as_ref()
    }

    #[must_use]
    pub fn sampling(&self) -> (r: Option<SamplingParams>)
        ensures
            r == self@.sampling,
    {
        self.sampling
    }

    /// Whether the segment asks for an output token.
    #[must_use]
    pub fn requests_sampling(&self) -> (r: bool)
        ensures
            r == (self@.sampling is Some),
    {
        self.sampling.is_some()
    }
}

/// What each segment holds, in order.
pub open spec fn segment_views(segments: Seq<ExecutionSegment>) -> Seq<ExecutionSegmentView> {
    segments.map_values(|segment: ExecutionSegment| segment@)
}

/// Whether no request has two segments.
pub open spec fn distinct_segments(segments: Seq<ExecutionSegmentView>) -> bool {
    forall|i: int, j: int|
        0 <= i < j < segments.len() ==> (#[trigger] segments[i]).request != (
        #[trigger] segments[j]).request
}

/// Tokens of the segments from `i` on.
pub open spec fn token_total(segments: Seq<ExecutionSegmentView>, i: int) -> nat
    decreases segments.len() - i,
{
    if i < 0 || i >= segments.len() {
        0
    } else {
        segments[i].token_count as nat + token_total(segments, i + 1)
    }
}

/// Work of one submission: at least one segment, and one per request.
#[derive(Debug, PartialEq)]
pub struct ExecutionBatch {
    segments: Vec<ExecutionSegment>,
}

impl View for ExecutionBatch {
    type V = Seq<ExecutionSegmentView>;

    closed spec fn view(&self) -> Seq<ExecutionSegmentView> {
        segment_views(self.segments@)
    }
}

impl Clone for ExecutionBatch {
    fn clone(&self) -> (r: Self)
        ensures
            r@ == self@,
    {
        proof {
            use_type_invariant(self);
        }
        let segments = self.segments.clone();
        assert(segment_views(segments@) =~= segment_views(self.segments@));
        ExecutionBatch { segments }
    }
}

impl ExecutionBatch {
    #[verifier::type_invariant]
    spec fn submittable(self) -> bool {
        self.segments@.len() > 0 && distinct_segments(segment_views(self.segments@))
    }

    /// # Errors
    /// Returns [`PlanError::EmptyBatch`] for no work or
    /// [`PlanError::DuplicateBatchRequest`] when a request appears more than once in the
    /// same submission.
    pub fn new(segments: Vec<ExecutionSegment>) -> (r: Result<Self, PlanError>)
        ensures
            segments@.len() == 0 ==> r == Err::<ExecutionBatch, PlanError>(PlanError::EmptyBatch),
            segments@.len() > 0 && !distinct_segments(segment_views(segments@)) ==> r == Err::<
                ExecutionBatch,
                PlanError,
            >(PlanError::DuplicateBatchRequest),
            segments@.len() > 0 && distinct_segments(segment_views(segments@)) ==> r is Ok
                && r->Ok_0@ == segment_views(segments@),
    {
        if segments.is_empty() {
            return Err(PlanError::EmptyBatch);
        }
        let ghost views = segment_views(segments@);
        let mut index: usize = 0;
        while index < segments.len()
            invariant
                index <= segments@.len(),
                segments@.len() > 0,
                views == segment_views(segments@),
                forall|i: int, j: int|
                    0 <= i < j < index ==> (#[trigger] views[i]).request != (
                    #[trigger] views[j]).request,
            decreases segments.len() - index,
        {
            let mut earlier: usize = 0;
            while earlier < index
                invariant
                    earlier <= index < segments@.len(),
                    views == segment_views(segments@),
                    forall|i: int|
                        0 <= i < earlier ==> (#[trigger] views[i]).request
                            != views[index as int].request,
                decreases index - earlier,
            {
                assert(views[earlier as int] == segments@[earlier as int]@);
                assert(views[index as int] == segments@[index as int]@);
                if segments[earlier].request() == segments[index].request() {
                    return Err(PlanError::DuplicateBatchRequest);
                }
                earlier += 1;
            }
            index += 1;
        }
        Ok(ExecutionBatch { segments })
    }

    #[must_use]
    pub fn segments(&self) -> (r: &[ExecutionSegment])
        ensures
            segment_views(r@) == self@,
            r@.len() > 0,
            distinct_segments(self@),
    {
        proof {
            use_type_invariant(self);
        }
        self.segments.as_slice()
    }

    #[must_use]
    pub fn len(&self) -> (r: usize)
        ensures
            r == self@.len(),
            r > 0,
    {
        proof {
            use_type_invariant(self);
        }
        self.segments.len()
    }

    /// A batch always holds work.
    #[must_use]
    pub fn is_empty(&self) -> (r: bool)
        ensures
            !r,
            r == (self@.len() == 0),
    {
        proof {
            use_type_invariant(self);
        }
        false
    }

    /// Tokens of all segments, if their number is representable.
    #[must_use]
    pub fn total_tokens(&self) -> (r: Option<u32>)
        ensures
            r == if token_total(self@, 0) <= u32::MAX {
                Some(token_total(self@, 0) as u32)
            } else {
                None
            },
    {
        let mut total: u32 = 0;
        let mut index: usize = 0;
        while index < self.segments.len()
            invariant
                index <= self.segments@.len(),
                total + token_total(self@, index as int) == token_total(self@, 0),
            decreases self.segments.len() - index,
        {
            assert(self@[index as int] == self.segments@[index as int]@);
            match total.checked_add(self.segments[index].token_count()) {
                Some(next) => {
                    total = next;
                },
                None => {
                    return None;
                },
            }
            index += 1;
        }
        Some(total)
    }
}

/// A region of the model, executed in one phase.
#[derive(Clone, Copy, Debug, Hash, PartialEq, Eq, Structural)]
pub struct ExecutionStage {
    pub region: ModelRegionId,
    pub phase: ExecutionPhase,
}

impl ExecutionStage {
    #[must_use]
    pub fn new(region: ModelRegionId, phase: ExecutionPhase) -> (r: Self)
        ensures
            r == (ExecutionStage { region, phase }),
    {
        ExecutionStage { region, phase }
    }

    #[must_use]
    pub fn region(self) -> (r: ModelRegionId)
        ensures
            r == self.region,
    {
        self.region
    }

    #[must_use]
    pub fn phase(self) -> (r: ExecutionPhase)
        ensures
            r == self.phase,
    {
        self.phase
    }
}

/// A prepared execution: at least one stage, weights bound for its model and device,
/// residency of its model and a variant that is not known to be incompatible.
#[derive(Debug, PartialEq, Eq)]
pub struct ExecutionPlan {
    model: ModelId,
    backend: BackendId,
    device: DeviceId,
    policy_version: PolicyVersion,
    stages: Vec<ExecutionStage>,
    state_requirements: Vec<StateRequirement>,
    weights: WeightBinding,
    residency: ModelResidencyPlan,
    variant: ExecutionVariant,
}

/// What a plan holds.
#[verifier::ext_equal]
pub struct ExecutionPlanView {
    pub model: Seq<char>,
    pub backend: Seq<char>,
    pub device: DeviceId,
    pub policy_version: PolicyVersion,
    pub stages: Seq<ExecutionStage>,
    pub state_requirements: Seq<StateRequirement>,
    pub weights: WeightBindingView,
    pub residency: ModelResidencyPlanView,
    pub variant: ExecutionVariantView,
}

impl View for ExecutionPlan {
    type V = ExecutionPlanView;

    closed spec fn view(&self) -> ExecutionPlanView {
        ExecutionPlanView {
            model: self.model@,
            backend: self.backend@,
            device: self.device,
            policy_version: self.policy_version,
            stages: self.stages@,
            state_requirements: self.state_requirements@,
            weights: self.weights@,
            residency: self.residency@,
            variant: self.variant@,
        }
    }
}

impl Clone for ExecutionPlan {
    fn clone(&self) -> (r: Self)
        ensures
            r@ == self@,
    {
        proof {
            use_type_invariant(self);
        }
        let stages = self.stages.clone();
        assert(stages@ =~= self.stages@);
        let state_requirements = self.state_requirements.clone();
        assert(state_requirements@ =~= self.state_requirements@);
        ExecutionPlan {
            model: self.model.clone(),
            backend: self.backend.clone(),
            device: self.device,
            policy_version: self.policy_version,
            stages,
            state_requirements,
            weights: self.weights.clone(),
            residency: self.residency.clone(),
            variant: self.variant.clone(),
        }
    }
}

impl ExecutionPlan {
    #[verifier::type_invariant]
    spec fn consistent(self) -> bool {
        self@.prepared()
    }

    #[must_use]
    pub fn model(&self) -> (r: &ModelId)
        ensures
            r@ == self@.model,
    {
        &self.model
    }

    #[must_use]
    pub fn backend(&self) -> (r: &BackendId)
        ensures
            r@ == self@.backend,
    {
        &self.backend
    }

    #[must_use]
    pub fn device(&self) -> (r: DeviceId)
        ensures
            r == self@.device,
    {
        self.device
    }

    #[must_use]
    pub fn policy_version(&self) -> (r: PolicyVersion)
        ensures
            r == self@.policy_version,
    {
        self.policy_version
    }

    #[must_use]
    pub fn stages(&self) -> (r: &[ExecutionStage])
        ensures
            r@ == self@.stages,
    {
        self.stages.as_slice()
    }

    #[must_use]
    pub fn state_requirements(&self) -> (r: &[StateRequirement])
        ensures
            r@ == self@.state_requirements,
    {
        self.state_requirements.as_slice()
    }

    #[must_use]
    pub fn weights(&self) -> (r: &WeightBinding)
        ensures
            r@ == self@.weights,
    {
        &self.weights
    }

    #[must_use]
    pub fn residency(&self) -> (r: &ModelResidencyPlan)
        ensures
            r@ == self@.residency,
    {
        &self.residency
    }

    #[must_use]
    pub fn variant(&self) -> (r: &ExecutionVariant)
        ensures
            r@ == self@.variant,
    {
        &self.variant
    }
}

impl ExecutionPlanView {
    /// Whether the parts of the plan agree.
    pub open spec fn prepared(self) -> bool {
        &&& self.stages.len() > 0
        &&& self.weights.model == self.model
        &&& self.weights.device == self.device
        &&& self.residency.model == self.model
        &&& !(self.variant.status is Incompatible)
    }

    /// Why a segment does not belong to the plan, if it does not.
    pub open spec fn segment_defect(self, segment: ExecutionSegmentView) -> Option<PlanError> {
        if !has_phase(self.stages, segment.phase) {
            Some(PlanError::SegmentPhaseMismatch)
        } else if !all_declared(self.state_requirements, segment.state_requirements) {
            Some(PlanError::SegmentStateUndeclared)
        } else {
            None
        }
    }

    /// The defect of the first segment from `i` on that does not belong to the plan.
    pub open spec fn batch_defect(self, batch: Seq<ExecutionSegmentView>, i: int) -> Option<
        PlanError,
    >
        decreases batch.len() - i,
    {
        if i < 0 || i >= batch.len() {
            None
        } else if self.segment_defect(batch[i]) is Some {
            self.segment_defect(batch[i])
        } else {
            self.batch_defect(batch, i + 1)
        }
    }
}

/// Whether a stage executes in a phase.
pub open spec fn has_phase(stages: Seq<ExecutionStage>, phase: ExecutionPhase) -> bool {
    exists|i: int| 0 <= i < stages.len() && (#[trigger] stages[i]).phase == phase
}

/// Whether every requirement is among those declared.
pub open spec fn all_declared(
    declared: Seq<StateRequirement>,
    required: Seq<StateRequirement>,
) -> bool {
    forall|i: int| 0 <= i < required.len() ==> declared.contains(#[trigger] required[i])
}

impl ExecutionPlan {
    /// # Errors
    /// Returns [`PlanError::EmptyStages`] when the plan has no stages or
    /// [`PlanError::WeightBindingMismatch`] when the binding does not match the model and
    /// device.
    pub fn new(
        model: ModelId,
        backend: BackendId,
        device: DeviceId,
        policy_version: PolicyVersion,
        stages: Vec<ExecutionStage>,
        state_requirements: Vec<StateRequirement>,
        weights: WeightBinding,
    ) -> (r: Result<Self, PlanError>)
        ensures
            stages@.len() == 0 ==> r == Err::<ExecutionPlan, PlanError>(PlanError::EmptyStages),
            stages@.len() > 0 && (weights@.model != model@ || weights@.device != device) ==> r
                == Err::<ExecutionPlan, PlanError>(PlanError::WeightBindingMismatch),
            stages@.len() > 0 && weights@.model == model@ && weights@.device == device ==> r is Ok
                && r->Ok_0@ == (ExecutionPlanView {
                model: model@,
                backend: backend@,
                device,
                policy_version,
                stages: stages@,
                state_requirements: state_requirements@,
                weights: weights@,
                residency: ModelResidencyPlanView {
                    model: model@,
                    default_location: ResidencyLocation::Device(device),
                    overrides: Seq::empty(),
                },
                variant: baseline_variant(),
            }),
    {
        if stages.is_empty() {
            return Err(PlanError::EmptyStages);
        }
        if !weights.model().same(&model) || weights.device() != device {
            return Err(PlanError::WeightBindingMismatch);
        }
        let residency = ModelResidencyPlan::single_device(model.clone(), device);
        Ok(
            ExecutionPlan {
                model,
                backend,
                device,
                policy_version,
                stages,
                state_requirements,
                weights,
                residency,
                variant: ExecutionVariant::baseline(),
            },
        )
    }

    /// # Errors
    /// Returns [`PlanError::ResidencyModelMismatch`] when the residency plan describes a
    /// different model.
    pub fn with_residency(self, residency: ModelResidencyPlan) -> (r: Result<Self, PlanError>)
        ensures
            residency@.model != self@.model ==> r == Err::<ExecutionPlan, PlanError>(
                PlanError::ResidencyModelMismatch,
            ),
            residency@.model == self@.model ==> r is Ok && r->Ok_0@ == (ExecutionPlanView {
                residency: residency@,
                ..self@
            }),
    {
        proof {
            use_type_invariant(&self);
        }
        if !residency.model().same(&self.model) {
            return Err(PlanError::ResidencyModelMismatch);
        }
        Ok(
            ExecutionPlan {
                model: self.model,
                backend: self.backend,
                device: self.device,
                policy_version: self.policy_version,
                stages: self.stages,
                state_requirements: self.state_requirements,
                weights: self.weights,
                residency,
                variant: self.variant,
            },
        )
    }

    /// # Errors
    /// Returns [`PlanError::IncompatibleVariant`] for a variant that has been explicitly
    /// qualified as incompatible.
    pub fn with_variant(self, variant: ExecutionVariant) -> (r: Result<Self, PlanError>)
        ensures
            variant@.status is Incompatible ==> r == Err::<ExecutionPlan, PlanError>(
                PlanError::IncompatibleVariant,
            ),
            !(variant@.status is Incompatible) ==> r is Ok && r->Ok_0@ == (ExecutionPlanView {
                variant: variant@,
                ..self@
            }),
    {
        proof {
            use_type_invariant(&self);
        }
        if variant.status() == QualificationStatus::Incompatible {
            return Err(PlanError::IncompatibleVariant);
        }
        Ok(
            ExecutionPlan {
                model: self.model,
                backend: self.backend,
                device: self.device,
                policy_version: self.policy_version,
                stages: self.stages,
                state_requirements: self.state_requirements,
                weights: self.weights,
                residency: self.residency,
                variant,
            },
        )
    }

    /// Check that a request segment belongs to this prepared plan.
    ///
    /// # Errors
    /// Returns [`PlanError::SegmentPhaseMismatch`] when no stage has the segment's phase,
    /// then [`PlanError::SegmentStateUndeclared`] when the segment depends on state that the
    /// plan does not declare.
    pub fn validate_segment(&self, segment: &ExecutionSegment) -> (r: Result<(), PlanError>)
        ensures
            r == match self@.segment_defect(segment@) {
                Some(error) => Err::<(), PlanError>(error),
                None => Ok(()),
            },
    {
        let mut index: usize = 0;
        let mut found: bool = false;
        while index < self.stages.len() && !found
            invariant
                index <= self.stages@.len(),
                found ==> has_phase(self@.stages, segment@.phase),
                !found ==> forall|i: int|
                    0 <= i < index ==> (#[trigger] self@.stages[i]).phase != segment@.phase,
            decreases self.stages.len() - index,
        {
            if self.stages[index].phase == segment.phase() {
                assert(self@.stages[index as int].phase == segment@.phase);
                found = true;
            }
            index += 1;
        }
        if !found {
            return Err(PlanError::SegmentPhaseMismatch);
        }
        let required = segment.state_requirements();
        let mut index: usize = 0;
        while index < required.len()
            invariant
                index <= required@.len(),
                required@ == segment@.state_requirements,
                has_phase(self@.stages, segment@.phase),
                forall|i: int|
                    0 <= i < index ==> self@.state_requirements.contains(#[trigger] required@[i]),
            decreases required.len() - index,
        {
            if !declares(self.state_requirements.as_slice(), required[index]) {
                return Err(PlanError::SegmentStateUndeclared);
            }
            index += 1;
        }
        Ok(())
    }

    /// # Errors
    /// Returns the first segment validation error in the batch.
    pub fn validate_batch(&self, batch: &ExecutionBatch) -> (r: Result<(), PlanError>)
        ensures
            r == match self@.batch_defect(batch@, 0) {
                Some(error) => Err::<(), PlanError>(error),
                None => Ok(()),
            },
    {
        let segments = batch.segments();
        let mut index: usize = 0;
        while index < segments.len()
            invariant
                index <= segments@.len(),
                segment_views(segments@) == batch@,
                self@.batch_defect(batch@, 0) == self@.batch_defect(batch@, index as int),
            decreases segments.len() - index,
        {
            assert(batch@[index as int] == segments@[index as int]@);
            match self.validate_segment(&segments[index]) {
                Ok(()) => {},
                Err(error) => {
                    return Err(error);
                },
            }
            index += 1;
        }
        Ok(())
    }

    /// The requirements that the segments of this plan share.
    #[must_use]
    pub fn shared_state_requirements(&self) -> (r: &[StateRequirement])
        ensures
            r@ == self@.state_requirements,
    {
        self.state_requirements.as_slice()
    }

    #[must_use]
    pub fn requires_kv_state(&self) -> (r: bool)
        ensures
            r == exists|i: int|
                0 <= i < self@.state_requirements.len()
                    && #[trigger] self@.state_requirements[i] is FullAttentionKv,
    {
        let mut index: usize = 0;
        while index < self.state_requirements.len()
            invariant
                index <= self.state_requirements@.len(),
                forall|i: int|
                    0 <= i < index ==> !(#[trigger] self@.state_requirements[i] is FullAttentionKv),
            decreases self.state_requirements.len() - index,
        {
            if self.state_requirements[index].is_kv() {
                assert(self@.state_requirements[index as int] is FullAttentionKv);
                return true;
            }
            index += 1;
        }
        false
    }

    #[must_use]
    pub fn requires_recurrent_state(&self) -> (r: bool)
        ensures
            r == exists|i: int|
                0 <= i < self@.state_requirements.len()
                    && #[trigger] self@.state_requirements[i] is Recurrent,
    {
        let mut index: usize = 0;
        while index < self.state_requirements.len()
            invariant
                index <= self.state_requirements@.len(),
                forall|i: int|
                    0 <= i < index ==> !(#[trigger] self@.state_requirements[i] is Recurrent),
            decreases self.state_requirements.len() - index,
        {
            if self.state_requirements[index].is_recurrent() {
                assert(self@.state_requirements[index as int] is Recurrent);
                return true;
            }
            index += 1;
        }
        false
    }
}

#[derive(Clone, Copy, Debug, Hash, PartialEq, Eq, Structural)]
pub struct ExecutionMetrics {
    pub elapsed_nanos: u64,
    pub state_load_bytes: u64,
    pub state_store_bytes: u64,
}

impl ExecutionMetrics {
    #[must_use]
    pub fn elapsed_nanos(self) -> (r: u64)
        ensures
            r == self.elapsed_nanos,
    {
        self.elapsed_nanos
    }

    #[must_use]
    pub fn state_load_bytes(self) -> (r: u64)
        ensures
            r == self.state_load_bytes,
    {
        self.state_load_bytes
    }

    #[must_use]
    pub fn state_store_bytes(self) -> (r: u64)
        ensures
            r == self.state_store_bytes,
    {
        self.state_store_bytes
    }
}

impl ExecutionMetrics {
    #[must_use]
    pub fn new(elapsed_nanos: u64, state_load_bytes: u64, state_store_bytes: u64) -> (r: Self)
        ensures
            r == (ExecutionMetrics { elapsed_nanos, state_load_bytes, state_store_bytes }),
    {
        ExecutionMetrics { elapsed_nanos, state_load_bytes, state_store_bytes }
    }
}

/// What a device reports of one executed segment.
#[derive(Clone, Copy, Debug, Hash, PartialEq, Eq, Structural)]
pub struct ExecutionOutcome {
    pub metrics: ExecutionMetrics,
    pub output_token: Option<u32>,
}

impl ExecutionOutcome {
    #[must_use]
    pub fn metrics(self) -> (r: ExecutionMetrics)
        ensures
            r == self.metrics,
    {
        self.metrics
    }

    #[must_use]
    pub fn output_token(self) -> (r: Option<u32>)
        ensures
            r == self.output_token,
    {
        self.output_token
    }
}

impl ExecutionOutcome {
    #[must_use]
    pub fn new(metrics: ExecutionMetrics) -> (r: Self)
        ensures
            r == (ExecutionOutcome { metrics, output_token: None }),
    {
        ExecutionOutcome { metrics, output_token: None }
    }

    #[must_use]
    pub fn with_output_token(self, token: u32) -> (r: Self)
        ensures
            r == (ExecutionOutcome { output_token: Some(token), ..self }),
    {
        ExecutionOutcome { metrics: self.metrics, output_token: Some(token) }
    }
}

/// Completed work of one request; it is never empty.
#[derive(Clone, Copy, Debug, Hash, PartialEq, Eq, Structural)]
pub struct ExecutionEvent {
    request: RequestId,
    policy_version: PolicyVersion,
    phase: ExecutionPhase,
    token_count: u32,
    metrics: ExecutionMetrics,
    output_token: Option<u32>,
}

/// What an event holds.
#[verifier::ext_equal]
pub struct ExecutionEventView {
    pub request: RequestId,
    pub policy_version: PolicyVersion,
    pub phase: ExecutionPhase,
    pub token_count: u32,
    pub metrics: ExecutionMetrics,
    pub output_token: Option<u32>,
}

impl View for ExecutionEvent {
    type V = ExecutionEventView;

    closed spec fn view(&self) -> ExecutionEventView {
        ExecutionEventView {
            request: self.request,
            policy_version: self.policy_version,
            phase: self.phase,
            token_count: self.token_count,
            metrics: self.metrics,
            output_token: self.output_token,
        }
    }
}

impl ExecutionEvent {
    #[must_use]
    pub fn request(self) -> (r: RequestId)
        ensures
            r == self@.request,
    {
        self.request
    }

    #[must_use]
    pub fn policy_version(self) -> (r: PolicyVersion)
        ensures
            r == self@.policy_version,
    {
        self.policy_version
    }

    #[must_use]
    pub fn phase(self) -> (r: ExecutionPhase)
        ensures
            r == self@.phase,
    {
        self.phase
    }

    #[must_use]
    pub fn token_count(self) -> (r: u32)
        ensures
            r == self@.token_count,
    {
        self.token_count
    }

    #[must_use]
    pub fn metrics(self) -> (r: ExecutionMetrics)
        ensures
            r == self@.metrics,
    {
        self.metrics
    }

    #[must_use]
    pub fn output_token(self) -> (r: Option<u32>)
        ensures
            r == self@.output_token,
    {
        self.output_token
    }
}

impl ExecutionEvent {
    #[verifier::type_invariant]
    spec fn worked(self) -> bool {
        self.token_count > 0
    }

    #[must_use]
    pub fn new(
        request: RequestId,
        policy_version: PolicyVersion,
        phase: ExecutionPhase,
        token_count: u32,
        metrics: ExecutionMetrics,
    ) -> (r: Option<Self>)
        ensures
            token_count == 0 ==> r is None,
            token_count > 0 ==> r is Some && r->Some_0@ == (ExecutionEventView {
                request,
                policy_version,
                phase,
                token_count,
                metrics,
                output_token: None,
            }),
    {
        if token_count == 0 {
            None
        } else {
            Some(
                ExecutionEvent {
                    request,
                    policy_version,
                    phase,
                    token_count,
                    metrics,
                    output_token: None,
                },
            )
        }
    }

    #[must_use]
    pub fn with_output_token(self, token: u32) -> (r: Self)
        ensures
            r@ == (ExecutionEventView { output_token: Some(token), ..self@ }),
    {
        proof {
            use_type_invariant(&self);
        }
        ExecutionEvent {
            request: self.request,
            policy_version: self.policy_version,
            phase: self.phase,
            token_count: self.token_count,
            metrics: self.metrics,
            output_token: Some(token),
        }
    }
}

/// What each event holds, in order.
pub open spec fn event_views(events: Seq<ExecutionEvent>) -> Seq<ExecutionEventView> {
    events.map_values(|event: ExecutionEvent| event@)
}

/// Whether no request has two events.
pub open spec fn distinct_events(events: Seq<ExecutionEventView>) -> bool {
    forall|i: int, j: int|
        0 <= i < j < events.len() ==> (#[trigger] events[i]).request != (
        #[trigger] events[j]).request
}

/// Completed work of one submission: at least one event, and one per request.
#[derive(Debug, PartialEq, Eq)]
pub struct ExecutionBatchEvent {
    events: Vec<ExecutionEvent>,
}

impl View for ExecutionBatchEvent {
    type V = Seq<ExecutionEventView>;

    closed spec fn view(&self) -> Seq<ExecutionEventView> {
        event_views(self.events@)
    }
}

impl Clone for ExecutionBatchEvent {
    fn clone(&self) -> (r: Self)
        ensures
            r@ == self@,
    {
        proof {
            use_type_invariant(self);
        }
        let events = self.events.clone();
        assert(event_views(events@) =~= event_views(self.events@));
        ExecutionBatchEvent { events }
    }
}

impl ExecutionBatchEvent {
    #[verifier::type_invariant]
    spec fn reportable(self) -> bool {
        self.events@.len() > 0 && distinct_events(event_views(self.events@))
    }

    /// # Errors
    /// Returns [`PlanError::EmptyBatch`] when the completion has no events or
    /// [`PlanError::DuplicateBatchRequest`] when a request occurs twice.
    pub fn new(events: Vec<ExecutionEvent>) -> (r: Result<Self, PlanError>)
        ensures
            events@.len() == 0 ==> r == Err::<ExecutionBatchEvent, PlanError>(
                PlanError::EmptyBatch,
            ),
            events@.len() > 0 && !distinct_events(event_views(events@)) ==> r == Err::<
                ExecutionBatchEvent,
                PlanError,
            >(PlanError::DuplicateBatchRequest),
            events@.len() > 0 && distinct_events(event_views(events@)) ==> r is Ok && r->Ok_0@
                == event_views(events@),
    {
        if events.is_empty() {
            return Err(PlanError::EmptyBatch);
        }
        let ghost views = event_views(events@);
        let mut index: usize = 0;
        while index < events.len()
            invariant
                index <= events@.len(),
                events@.len() > 0,
                views == event_views(events@),
                forall|i: int, j: int|
                    0 <= i < j < index ==> (#[trigger] views[i]).request != (
                    #[trigger] views[j]).request,
            decreases events.len() - index,
        {
            let mut earlier: usize = 0;
            while earlier < index
                invariant
                    earlier <= index < events@.len(),
                    views == event_views(events@),
                    forall|i: int|
                        0 <= i < earlier ==> (#[trigger] views[i]).request
                            != views[index as int].request,
                decreases index - earlier,
            {
                assert(views[earlier as int] == events@[earlier as int]@);
                assert(views[index as int] == events@[index as int]@);
                if events[earlier].request() == events[index].request() {
                    return Err(PlanError::DuplicateBatchRequest);
                }
                earlier += 1;
            }
            index += 1;
        }
        Ok(ExecutionBatchEvent { events })
    }

    #[must_use]
    pub fn events(&self) -> (r: &[ExecutionEvent])
        ensures
            event_views(r@) == self@,
            r@.len() > 0,
            distinct_events(self@),
    {
        proof {
            use_type_invariant(self);
        }
        self.events.as_slice()
    }

    #[must_use]
    pub fn len(&self) -> (r: usize)
        ensures
            r == self@.len(),
            r > 0,
    {
        proof {
            use_type_invariant(self);
        }
        self.events.len()
    }

    /// A completion always holds an event.
    #[must_use]
    pub fn is_empty(&self) -> (r: bool)
        ensures
            !r,
            r == (self@.len() == 0),
    {
        proof {
            use_type_invariant(self);
        }
        false
    }
}

#[derive(Clone, Copy, Debug, Hash, PartialEq, Eq, Structural)]
pub enum PlanError {
    EmptyStages,
    EmptyBatch,
    DuplicateBatchRequest,
    InvalidSegmentBatchSize,
    ZeroWork,
    SegmentPhaseMismatch,
    SegmentStateUndeclared,
    WeightBindingMismatch,
    ResidencyModelMismatch,
    IncompatibleVariant,
    /// A prompt chunk reaches past its prompt.
    TokenInputRange,
    /// A token input is not what its segment reads.
    TokenInputMismatch,
}

} // verus!
