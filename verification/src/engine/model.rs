//! Model descriptions and the provider boundary.

use crate::engine::execution::{ExecutionPlan, ExecutionPlanView, ExecutionStage};
use crate::engine::state::StateRequirement;
use crate::engine::tensor::{Quantization, WeightFormat};
use crate::text::{blank, is_blank};
use vstd::prelude::*;

verus! {

/// Stable model identity used by requests, plans and providers; never blank.
#[derive(Debug, Hash, PartialEq, Eq)]
pub struct ModelId(String);

impl View for ModelId {
    type V = Seq<char>;

    closed spec fn view(&self) -> Seq<char> {
        self.0@
    }
}

impl Clone for ModelId {
    fn clone(&self) -> (r: Self)
        ensures
            r@ == self@,
    {
        proof {
            use_type_invariant(self);
        }
        ModelId(self.0.clone())
    }
}

impl ModelId {
    #[verifier::type_invariant]
    spec fn named(self) -> bool {
        !blank(self.0@)
    }

    /// # Errors
    /// Returns [`ModelIdError`] when `value` is empty or whitespace-only.
    pub fn new(value: &str) -> (r: Result<Self, ModelIdError>)
        ensures
            blank(value@) ==> r == Err::<ModelId, ModelIdError>(ModelIdError),
            !blank(value@) ==> r is Ok && r->Ok_0@ == value@,
    {
        if is_blank(value) {
            return Err(ModelIdError);
        }
        Ok(ModelId(value.to_owned()))
    }

    #[must_use]
    pub fn as_str(&self) -> (r: &str)
        ensures
            r@ == self@,
            !blank(r@),
    {
        proof {
            use_type_invariant(self);
        }
        self.0.as_str()
    }

    /// Whether two identities are the same.
    #[must_use]
    pub fn same(&self, other: &ModelId) -> (r: bool)
        ensures
            r == (self@ == other@),
    {
        self.0 == other.0
    }
}

/// Returned when a model identity is empty or whitespace-only.
#[derive(Clone, Copy, Debug, Hash, PartialEq, Eq, Structural)]
pub struct ModelIdError;

#[derive(Clone, Copy, Debug, Hash, PartialEq, Eq, Structural)]
pub struct ModelRegionId(pub u16);

impl ModelRegionId {
    #[must_use]
    pub fn new(value: u16) -> (r: Self)
        ensures
            r.0 == value,
    {
        ModelRegionId(value)
    }

    #[must_use]
    pub fn get(self) -> (r: u16)
        ensures
            r == self.0,
    {
        self.0
    }
}

/// A model region is intentionally coarser than an operator or compiler representation.
#[derive(Clone, Copy, Debug, Hash, PartialEq, Eq, Structural)]
pub enum ModelRegionKind {
    RecurrentAttention,
    FullAttention,
    FeedForward,
    Embedding,
    OutputProjection,
    Encoder,
}

#[derive(Clone, Copy, Debug, Hash, PartialEq, Eq, Structural)]
pub struct ModelRegion {
    pub id: ModelRegionId,
    pub kind: ModelRegionKind,
}

impl ModelRegion {
    #[must_use]
    pub fn id(self) -> (r: ModelRegionId)
        ensures
            r == self.id,
    {
        self.id
    }

    #[must_use]
    pub fn kind(self) -> (r: ModelRegionKind)
        ensures
            r == self.kind,
    {
        self.kind
    }
}

impl ModelRegion {
    #[must_use]
    pub fn new(id: ModelRegionId, kind: ModelRegionKind) -> (r: Self)
        ensures
            r == (ModelRegion { id, kind }),
    {
        ModelRegion { id, kind }
    }
}

/// Multi-token prediction that a model offers; neither number is zero.
#[derive(Clone, Copy, Debug, Hash, PartialEq, Eq, Structural)]
pub struct MtpCapability {
    draft_layers: u8,
    max_draft_tokens: u8,
}

/// What a capability holds.
#[verifier::ext_equal]
pub struct MtpCapabilityView {
    pub draft_layers: u8,
    pub max_draft_tokens: u8,
}

impl View for MtpCapability {
    type V = MtpCapabilityView;

    closed spec fn view(&self) -> MtpCapabilityView {
        MtpCapabilityView {
            draft_layers: self.draft_layers,
            max_draft_tokens: self.max_draft_tokens,
        }
    }
}

impl MtpCapability {
    #[must_use]
    pub fn draft_layers(self) -> (r: u8)
        ensures
            r == self@.draft_layers,
    {
        self.draft_layers
    }

    #[must_use]
    pub fn max_draft_tokens(self) -> (r: u8)
        ensures
            r == self@.max_draft_tokens,
    {
        self.max_draft_tokens
    }
}

impl MtpCapability {
    #[verifier::type_invariant]
    spec fn offered(self) -> bool {
        self.draft_layers > 0 && self.max_draft_tokens > 0
    }

    #[must_use]
    pub fn new(draft_layers: u8, max_draft_tokens: u8) -> (r: Option<Self>)
        ensures
            draft_layers == 0 || max_draft_tokens == 0 ==> r is None,
            draft_layers > 0 && max_draft_tokens > 0 ==> r is Some && r->Some_0@ == (
            MtpCapabilityView { draft_layers, max_draft_tokens }),
    {
        if draft_layers == 0 || max_draft_tokens == 0 {
            None
        } else {
            Some(MtpCapability { draft_layers, max_draft_tokens })
        }
    }
}

#[derive(Clone, Copy, Debug, Hash, PartialEq, Eq, Structural)]
pub struct ModelCapabilities {
    pub mtp: Option<MtpCapability>,
    pub vision_encoder: bool,
}

impl ModelCapabilities {
    #[must_use]
    pub fn mtp(self) -> (r: Option<MtpCapability>)
        ensures
            r == self.mtp,
    {
        self.mtp
    }

    #[must_use]
    pub fn has_vision_encoder(self) -> (r: bool)
        ensures
            r == self.vision_encoder,
    {
        self.vision_encoder
    }
}

impl ModelCapabilities {
    #[must_use]
    pub fn new(mtp: Option<MtpCapability>, vision_encoder: bool) -> (r: Self)
        ensures
            r == (ModelCapabilities { mtp, vision_encoder }),
    {
        ModelCapabilities { mtp, vision_encoder }
    }
}

#[derive(Debug, Hash, PartialEq, Eq)]
pub struct WeightDescription {
    pub format: WeightFormat,
    pub quantization: Quantization,
}

impl Clone for WeightDescription {
    fn clone(&self) -> (r: Self)
        ensures
            r.format == self.format,
            r.quantization == self.quantization,
    {
        WeightDescription {
            format: self.format.clone(),
            quantization: self.quantization,
        }
    }
}

impl WeightDescription {
    #[must_use]
    pub fn format(&self) -> (r: &WeightFormat)
        ensures
            *r == self.format,
    {
        &self.format
    }

    #[must_use]
    pub fn quantization(&self) -> (r: Quantization)
        ensures
            r == self.quantization,
    {
        self.quantization
    }
}

impl WeightDescription {
    #[must_use]
    pub fn new(format: WeightFormat, quantization: Quantization) -> (r: Self)
        ensures
            r == (WeightDescription { format, quantization }),
    {
        WeightDescription { format, quantization }
    }
}

/// Static metadata needed by a planner before it selects a concrete execution. The
/// architecture is named and there is at least one region.
#[derive(Debug, PartialEq, Eq)]
pub struct ModelDescription {
    id: ModelId,
    architecture: String,
    regions: Vec<ModelRegion>,
    state_requirements: Vec<StateRequirement>,
    capabilities: ModelCapabilities,
    weights: WeightDescription,
}

/// What a description holds.
#[verifier::ext_equal]
pub struct ModelDescriptionView {
    pub id: Seq<char>,
    pub architecture: Seq<char>,
    pub regions: Seq<ModelRegion>,
    pub state_requirements: Seq<StateRequirement>,
    pub capabilities: ModelCapabilities,
    pub weights: WeightDescription,
}

impl View for ModelDescription {
    type V = ModelDescriptionView;

    closed spec fn view(&self) -> ModelDescriptionView {
        ModelDescriptionView {
            id: self.id@,
            architecture: self.architecture@,
            regions: self.regions@,
            state_requirements: self.state_requirements@,
            capabilities: self.capabilities,
            weights: self.weights,
        }
    }
}

impl Clone for ModelDescription {
    fn clone(&self) -> (r: Self)
        ensures
            r@ == self@,
    {
        proof {
            use_type_invariant(self);
        }
        let regions = self.regions.clone();
        assert(regions@ =~= self.regions@);
        let state_requirements = self.state_requirements.clone();
        assert(state_requirements@ =~= self.state_requirements@);
        ModelDescription {
            id: self.id.clone(),
            architecture: self.architecture.clone(),
            regions,
            state_requirements,
            capabilities: self.capabilities,
            weights: self.weights.clone(),
        }
    }
}

impl ModelDescription {
    #[verifier::type_invariant]
    spec fn described(self) -> bool {
        !blank(self.architecture@) && self.regions@.len() > 0
    }

    #[must_use]
    pub fn id(&self) -> (r: &ModelId)
        ensures
            r@ == self@.id,
    {
        &self.id
    }

    #[must_use]
    pub fn architecture(&self) -> (r: &str)
        ensures
            r@ == self@.architecture,
    {
        self.architecture.as_str()
    }

    #[must_use]
    pub fn regions(&self) -> (r: &[ModelRegion])
        ensures
            r@ == self@.regions,
    {
        self.regions.as_slice()
    }

    #[must_use]
    pub fn state_requirements(&self) -> (r: &[StateRequirement])
        ensures
            r@ == self@.state_requirements,
    {
        self.state_requirements.as_slice()
    }

    #[must_use]
    pub fn capabilities(&self) -> (r: ModelCapabilities)
        ensures
            r == self@.capabilities,
    {
        self.capabilities
    }

    #[must_use]
    pub fn weights(&self) -> (r: &WeightDescription)
        ensures
            *r == self@.weights,
    {
        &self.weights
    }
}

impl ModelDescription {
    /// # Errors
    /// Returns [`ModelError::InvalidDescription`] when required metadata is missing.
    pub fn new(
        id: ModelId,
        architecture: &str,
        regions: Vec<ModelRegion>,
        state_requirements: Vec<StateRequirement>,
        capabilities: ModelCapabilities,
        weights: WeightDescription,
    ) -> (r: Result<Self, ModelError>)
        ensures
            blank(architecture@) ==> r == Err::<ModelDescription, ModelError>(
                ModelError::InvalidDescription("architecture must not be empty"),
            ),
            !blank(architecture@) && regions@.len() == 0 ==> r == Err::<
                ModelDescription,
                ModelError,
            >(
                ModelError::InvalidDescription(
                    "model description must contain at least one region",
                ),
            ),
            !blank(architecture@) && regions@.len() > 0 ==> r is Ok && r->Ok_0@ == (
            ModelDescriptionView {
                id: id@,
                architecture: architecture@,
                regions: regions@,
                state_requirements: state_requirements@,
                capabilities,
                weights,
            }),
    {
        if is_blank(architecture) {
            return Err(ModelError::InvalidDescription("architecture must not be empty"));
        }
        if regions.is_empty() {
            return Err(
                ModelError::InvalidDescription(
                    "model description must contain at least one region",
                ),
            );
        }
        Ok(
            ModelDescription {
                id,
                architecture: architecture.to_owned(),
                regions,
                state_requirements,
                capabilities,
                weights,
            },
        )
    }
}

#[derive(Clone, Copy, Debug, PartialEq, Eq)]
pub enum ModelError {
    InvalidDescription(&'static str),
    PlanModelMismatch,
    UnknownRegion(ModelRegionId),
    UndeclaredState(StateRequirement),
}

/// Whether a region is described.
pub open spec fn describes(regions: Seq<ModelRegion>, id: ModelRegionId) -> bool {
    exists|i: int| 0 <= i < regions.len() && (#[trigger] regions[i]).id == id
}

/// The first stage from `i` on whose region is not described.
pub open spec fn first_unknown_region(
    stages: Seq<ExecutionStage>,
    regions: Seq<ModelRegion>,
    i: int,
) -> Option<ModelRegionId>
    decreases stages.len() - i,
{
    if i < 0 || i >= stages.len() {
        None
    } else if !describes(regions, stages[i].region) {
        Some(stages[i].region)
    } else {
        first_unknown_region(stages, regions, i + 1)
    }
}

/// The first requirement from `i` on that is not declared.
pub open spec fn first_undeclared(
    required: Seq<StateRequirement>,
    declared: Seq<StateRequirement>,
    i: int,
) -> Option<StateRequirement>
    decreases required.len() - i,
{
    if i < 0 || i >= required.len() {
        None
    } else if !declared.contains(required[i]) {
        Some(required[i])
    } else {
        first_undeclared(required, declared, i + 1)
    }
}

/// Why a plan does not fit a model, if it does not.
pub open spec fn plan_mismatch(
    description: ModelDescriptionView,
    plan: ExecutionPlanView,
) -> Option<ModelError> {
    if plan.model != description.id {
        Some(ModelError::PlanModelMismatch)
    } else {
        match first_unknown_region(plan.stages, description.regions, 0) {
            Some(region) => Some(ModelError::UnknownRegion(region)),
            None => match first_undeclared(
                plan.state_requirements,
                description.state_requirements,
                0,
            ) {
                Some(requirement) => Some(ModelError::UndeclaredState(requirement)),
                None => None,
            },
        }
    }
}

/// Check that a plan targets the described model, its regions and its declared state.
///
/// # Errors
/// Returns [`ModelError::PlanModelMismatch`] when the plan targets another model,
/// [`ModelError::UnknownRegion`] for the first stage outside the description, or
/// [`ModelError::UndeclaredState`] for the first state that the model does not declare.
pub fn validate_plan(description: &ModelDescription, plan: &ExecutionPlan) -> (r: Result<
    (),
    ModelError,
>)
    ensures
        r == match plan_mismatch(description@, plan@) {
            Some(error) => Err::<(), ModelError>(error),
            None => Ok(()),
        },
{
    if !plan.model().same(description.id()) {
        return Err(ModelError::PlanModelMismatch);
    }
    let stages = plan.stages();
    let regions = description.regions();
    let mut stage: usize = 0;
    while stage < stages.len()
        invariant
            stage <= stages.len(),
            stages@ == plan@.stages,
            regions@ == description@.regions,
            plan@.model == description@.id,
            first_unknown_region(stages@, regions@, 0) == first_unknown_region(
                stages@,
                regions@,
                stage as int,
            ),
        decreases stages.len() - stage,
    {
        let wanted = stages[stage].region;
        let mut region: usize = 0;
        let mut known: bool = false;
        while region < regions.len() && !known
            invariant
                region <= regions.len(),
                known ==> describes(regions@, wanted),
                !known ==> forall|i: int| 0 <= i < region ==> (#[trigger] regions@[i]).id != wanted,
            decreases regions.len() - region,
        {
            if regions[region].id == wanted {
                known = true;
            }
            region += 1;
        }
        if !known {
            return Err(ModelError::UnknownRegion(wanted));
        }
        stage += 1;
    }
    let required = plan.state_requirements();
    let declared = description.state_requirements();
    let mut index: usize = 0;
    while index < required.len()
        invariant
            index <= required.len(),
            required@ == plan@.state_requirements,
            declared@ == description@.state_requirements,
            plan@.model == description@.id,
            first_unknown_region(plan@.stages, description@.regions, 0) is None,
            first_undeclared(required@, declared@, 0) == first_undeclared(
                required@,
                declared@,
                index as int,
            ),
        decreases required.len() - index,
    {
        if !declares(declared, required[index]) {
            return Err(ModelError::UndeclaredState(required[index]));
        }
        index += 1;
    }
    Ok(())
}

/// Whether a requirement is among those declared.
pub fn declares(declared: &[StateRequirement], requirement: StateRequirement) -> (r: bool)
    ensures
        r == declared@.contains(requirement),
{
    let mut index: usize = 0;
    while index < declared.len()
        invariant
            index <= declared.len(),
            forall|i: int| 0 <= i < index ==> #[trigger] declared@[i] != requirement,
        decreases declared.len() - index,
    {
        if declared[index] == requirement {
            assert(declared@[index as int] == requirement);
            return true;
        }
        index += 1;
    }
    false
}

/// Whether this is the answer to a plan that is held against a description alone.
pub open spec fn fits_description(
    description: ModelDescriptionView,
    plan: ExecutionPlanView,
    result: Result<(), ModelError>,
) -> bool {
    match plan_mismatch(description, plan) {
        Some(error) => result == Err::<(), ModelError>(error),
        None => result is Ok,
    }
}

/// Provider implementations may be native or compatibility-backed. The core only requires
/// metadata and plan validation; loading and execution remain provider and backend
/// concerns. A verified implementation says in the specification function what it
/// describes.
pub trait ModelProvider: Sized + Send + Sync {
    /// What [`Self::description`] describes.
    open spec fn spec_description(&self) -> ModelDescriptionView {
        arbitrary()
    }

    /// Whether [`Self::validate_plan`] may, other than by the description alone, answer the
    /// plan with this result. A provider that asks more of a plan says here what.
    open spec fn screens(&self, plan: ExecutionPlanView, result: Result<(), ModelError>) -> bool {
        false
    }

    fn description(&self) -> (r: &ModelDescription)
        ensures
            r@ == self.spec_description(),
    ;

    /// Whether a plan can be executed with this model. Unless it is overridden, this holds the
    /// plan against the description.
    ///
    /// # Errors
    /// Returns the [`ModelError`] of a plan that does not fit the described model.
    fn validate_plan(&self, plan: &ExecutionPlan) -> (r: Result<(), ModelError>)
        ensures
            fits_description(self.spec_description(), plan@, r) || self.screens(plan@, r),
        default_ensures
            fits_description(self.spec_description(), plan@, r),
    {
        validate_plan(self.description(), plan)
    }
}

/// Whether a provider that was asked for a plan answered with this result: a call of its
/// [`ModelProvider::validate_plan`] on such a plan has it.
pub open spec fn vetted<P: ModelProvider>(
    provider: P,
    plan: ExecutionPlanView,
    result: Result<(), ModelError>,
) -> bool {
    &&& exists|given: &ExecutionPlan| #[trigger]
        call_ensures(P::validate_plan, (&provider, given), result) && given@ == plan
    &&& fits_description(provider.spec_description(), plan, result) || provider.screens(
        plan,
        result,
    )
}

} // verus!
