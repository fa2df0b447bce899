//! Model-owned resource residency, separate from per-request inference state.

use crate::engine::device::DeviceId;
use crate::engine::model::ModelId;
use crate::text::{blank, is_blank};
use vstd::prelude::*;

verus! {

#[derive(Clone, Copy, Debug, Hash, PartialEq, Eq, Structural)]
pub enum ResidencyLocation {
    Device(DeviceId),
    Host,
    Mapped,
}

/// Name of a model-owned resource; never blank.
#[derive(Debug, Hash, PartialEq, Eq)]
pub struct ModelResourceId(String);

impl View for ModelResourceId {
    type V = Seq<char>;

    closed spec fn view(&self) -> Seq<char> {
        self.0@
    }
}

impl Clone for ModelResourceId {
    fn clone(&self) -> (r: Self)
        ensures
            r@ == self@,
    {
        proof {
            use_type_invariant(self);
        }
        ModelResourceId(self.0.clone())
    }
}

impl ModelResourceId {
    #[verifier::type_invariant]
    spec fn named(self) -> bool {
        !blank(self.0@)
    }

    /// # Errors
    /// Returns [`ResidencyError::EmptyResource`] when the identifier is empty.
    pub fn new(value: &str) -> (r: Result<Self, ResidencyError>)
        ensures
            blank(value@)
                ==> r == Err::<ModelResourceId, ResidencyError>(ResidencyError::EmptyResource),
            !blank(value@) ==> r is Ok && r->Ok_0@ == value@,
    {
        if is_blank(value) {
            return Err(ResidencyError::EmptyResource);
        }
        Ok(ModelResourceId(value.to_owned()))
    }

    #[must_use]
    pub fn as_str(&self) -> (r: &str)
        ensures
            r@ == self@,
            !blank(r@),
    {
        proof {
            use_type_invariant(self);
        }
        self.0.as_str()
    }

    /// Whether two identities are the same.
    #[must_use]
    pub fn same(&self, other: &ModelResourceId) -> (r: bool)
        ensures
            r == (self@ == other@),
    {
        self.0 == other.0
    }
}

#[derive(Debug, Hash, PartialEq, Eq)]
pub struct ResidencyOverride {
    resource: ModelResourceId,
    location: ResidencyLocation,
    prefetchable: bool,
}

/// What an override holds.
#[verifier::ext_equal]
pub struct ResidencyOverrideView {
    pub resource: Seq<char>,
    pub location: ResidencyLocation,
    pub prefetchable: bool,
}

impl View for ResidencyOverride {
    type V = ResidencyOverrideView;

    closed spec fn view(&self) -> ResidencyOverrideView {
        ResidencyOverrideView {
            resource: self.resource@,
            location: self.location,
            prefetchable: self.prefetchable,
        }
    }
}

impl Clone for ResidencyOverride {
    fn clone(&self) -> (r: Self)
        ensures
            r@ == self@,
    {
        ResidencyOverride {
            resource: self.resource.clone(),
            location: self.location,
            prefetchable: self.prefetchable,
        }
    }
}

impl ResidencyOverride {
    #[must_use]
    pub fn resource(&self) -> (r: &ModelResourceId)
        ensures
            r@ == self@.resource,
    {
        &self.resource
    }

    #[must_use]
    pub fn location(&self) -> (r: ResidencyLocation)
        ensures
            r == self@.location,
    {
        self.location
    }

    #[must_use]
    pub fn prefetchable(&self) -> (r: bool)
        ensures
            r == self@.prefetchable,
    {
        self.prefetchable
    }
}

impl ResidencyOverride {
    #[must_use]
    pub fn new(resource: ModelResourceId, location: ResidencyLocation, prefetchable: bool) -> (r:
        Self)
        ensures
            r@ == (ResidencyOverrideView { resource: resource@, location, prefetchable }),
    {
        ResidencyOverride { resource, location, prefetchable }
    }
}

/// What each override holds, in order.
pub open spec fn override_views(overrides: Seq<ResidencyOverride>) -> Seq<ResidencyOverrideView> {
    overrides.map_values(|entry: ResidencyOverride| entry@)
}

/// Whether override `i` names the resource of an earlier one.
pub open spec fn repeats_resource(overrides: Seq<ResidencyOverrideView>, i: int) -> bool {
    exists|j: int| 0 <= j < i && (#[trigger] overrides[j]).resource == overrides[i].resource
}

/// The resource of the first override from `i` on that repeats an earlier one.
pub open spec fn first_repeated_resource(
    overrides: Seq<ResidencyOverrideView>,
    i: int,
) -> Option<Seq<char>>
    decreases overrides.len() - i,
{
    if i < 0 || i >= overrides.len() {
        None
    } else if repeats_resource(overrides, i) {
        Some(overrides[i].resource)
    } else {
        first_repeated_resource(overrides, i + 1)
    }
}

/// Where a resource resides: by its override from `i` on, or by default.
pub open spec fn located(
    overrides: Seq<ResidencyOverrideView>,
    default_location: ResidencyLocation,
    resource: Seq<char>,
    i: int,
) -> ResidencyLocation
    decreases overrides.len() - i,
{
    if i < 0 || i >= overrides.len() {
        default_location
    } else if overrides[i].resource == resource {
        overrides[i].location
    } else {
        located(overrides, default_location, resource, i + 1)
    }
}

/// Residency of a model's resources, each overridden at most once.
#[derive(Debug, Hash, PartialEq, Eq)]
pub struct ModelResidencyPlan {
    model: ModelId,
    default_location: ResidencyLocation,
    overrides: Vec<ResidencyOverride>,
}

/// What a residency plan holds.
#[verifier::ext_equal]
pub struct ModelResidencyPlanView {
    pub model: Seq<char>,
    pub default_location: ResidencyLocation,
    pub overrides: Seq<ResidencyOverrideView>,
}

impl View for ModelResidencyPlan {
    type V = ModelResidencyPlanView;

    closed spec fn view(&self) -> ModelResidencyPlanView {
        ModelResidencyPlanView {
            model: self.model@,
            default_location: self.default_location,
            overrides: override_views(self.overrides@),
        }
    }
}

impl Clone for ModelResidencyPlan {
    fn clone(&self) -> (r: Self)
        ensures
            r@ == self@,
    {
        let overrides = self.overrides.clone();
        assert(override_views(overrides@) =~= override_views(self.overrides@));
        ModelResidencyPlan {
            model: self.model.clone(),
            default_location: self.default_location,
            overrides,
        }
    }
}

impl ModelResidencyPlan {
    #[must_use]
    pub fn single_device(model: ModelId, device: DeviceId) -> (r: Self)
        ensures
            r@ == (ModelResidencyPlanView {
                model: model@,
                default_location: ResidencyLocation::Device(device),
                overrides: Seq::empty(),
            }),
    {
        let overrides: Vec<ResidencyOverride> = Vec::new();
        assert(override_views(overrides@) =~= Seq::empty());
        ModelResidencyPlan {
            model,
            default_location: ResidencyLocation::Device(device),
            overrides,
        }
    }

    /// # Errors
    /// Returns [`ResidencyError::DuplicateResource`] when a resource is overridden more
    /// than once.
    pub fn new(
        model: ModelId,
        default_location: ResidencyLocation,
        overrides: Vec<ResidencyOverride>,
    ) -> (r: Result<Self, ResidencyError>)
        ensures
            match first_repeated_resource(override_views(overrides@), 0) {
                Some(resource) => r is Err && r->Err_0 is DuplicateResource
                    && r->Err_0->DuplicateResource_0@ == resource,
                None => r is Ok && r->Ok_0@ == (ModelResidencyPlanView {
                    model: model@,
                    default_location,
                    overrides: override_views(overrides@),
                }),
            },
    {
        let ghost views = override_views(overrides@);
        let mut index: usize = 0;
        while index < overrides.len()
            invariant
                index <= overrides.len(),
                views == override_views(overrides@),
                first_repeated_resource(views, 0) == first_repeated_resource(views, index as int),
            decreases overrides.len() - index,
        {
            let mut previous: usize = 0;
            while previous < index
                invariant
                    previous <= index < overrides.len(),
                    views == override_views(overrides@),
                    first_repeated_resource(views, 0) == first_repeated_resource(
                        views,
                        index as int,
                    ),
                    forall|j: int|
                        0 <= j < previous ==> (#[trigger] views[j]).resource
                            != views[index as int].resource,
                decreases index - previous,
            {
                assert(views[previous as int] == overrides@[previous as int]@);
                assert(views[index as int] == overrides@[index as int]@);
                if overrides[previous].resource().same(overrides[index].resource()) {
                    assert(repeats_resource(views, index as int));
                    return Err(
                        ResidencyError::DuplicateResource(
                            overrides[index].resource().as_str().to_owned(),
                        ),
                    );
                }
                previous += 1;
            }
            index += 1;
        }
        Ok(ModelResidencyPlan { model, default_location, overrides })
    }

    #[must_use]
    pub fn model(&self) -> (r: &ModelId)
        ensures
            r@ == self@.model,
    {
        &self.model
    }

    #[must_use]
    pub fn default_location(&self) -> (r: ResidencyLocation)
        ensures
            r == self@.default_location,
    {
        self.default_location
    }

    #[must_use]
    pub fn overrides(&self) -> (r: &[ResidencyOverride])
        ensures
            override_views(r@) == self@.overrides,
    {
        self.overrides.as_slice()
    }

    /// Where a resource resides: by its override, or by default.
    #[must_use]
    pub fn location_for(&self, resource: &ModelResourceId) -> (r: ResidencyLocation)
        ensures
            r == located(self@.overrides, self@.default_location, resource@, 0),
    {
        let mut index: usize = 0;
        while index < self.overrides.len()
            invariant
                index <= self.overrides.len(),
                located(self@.overrides, self@.default_location, resource@, 0) == located(
                    self@.overrides,
                    self@.default_location,
                    resource@,
                    index as int,
                ),
            decreases self.overrides.len() - index,
        {
            assert(self@.overrides[index as int] == self.overrides@[index as int]@);
            if self.overrides[index].resource().same(resource) {
                return self.overrides[index].location();
            }
            index += 1;
        }
        self.default_location
    }
}

#[derive(Debug, Hash, PartialEq, Eq)]
pub enum ResidencyError {
    EmptyResource,
    DuplicateResource(String),
}

/// In a plan that was accepted, the override of a resource decides where it resides, and
/// a resource without one resides where the default says.
pub proof fn law_overrides_decide_residency(
    overrides: Seq<ResidencyOverrideView>,
    default_location: ResidencyLocation,
    resource: Seq<char>,
)
    requires
        first_repeated_resource(overrides, 0) is None,
    ensures
        forall|i: int|
            0 <= i < overrides.len() && (#[trigger] overrides[i]).resource == resource ==> located(
                overrides,
                default_location,
                resource,
                0,
            ) == overrides[i].location,
        (forall|i: int| 0 <= i < overrides.len() ==> (#[trigger] overrides[i]).resource != resource)
            ==> located(overrides, default_location, resource, 0) == default_location,
{
    lemma_none_repeats(overrides, 0);
    lemma_located(overrides, default_location, resource, 0);
    assert forall|i: int| 0 <= i < overrides.len() && (#[trigger] overrides[i]).resource
        == resource implies located(overrides, default_location, resource, 0)
        == overrides[i].location by {
        assert(forall|j: int| 0 <= j < i ==> (#[trigger] overrides[j]).resource != resource) by {
            assert(!repeats_resource(overrides, i));
        }
    }
}

proof fn lemma_none_repeats(overrides: Seq<ResidencyOverrideView>, i: int)
    requires
        0 <= i <= overrides.len(),
        first_repeated_resource(overrides, i) is None,
    ensures
        forall|k: int| i <= k < overrides.len() ==> !#[trigger] repeats_resource(overrides, k),
    decreases overrides.len() - i,
{
    if i < overrides.len() {
        lemma_none_repeats(overrides, i + 1);
    }
}

proof fn lemma_located(
    overrides: Seq<ResidencyOverrideView>,
    default_location: ResidencyLocation,
    resource: Seq<char>,
    i: int,
)
    requires
        0 <= i <= overrides.len(),
    ensures
        forall|k: int|
            i <= k < overrides.len() && (#[trigger] overrides[k]).resource == resource && (forall|
                j: int,
            |
                i <= j < k ==> (#[trigger] overrides[j]).resource != resource) ==> located(
                overrides,
                default_location,
                resource,
                i,
            ) == overrides[k].location,
        (forall|k: int| i <= k < overrides.len() ==> (#[trigger] overrides[k]).resource != resource)
            ==> located(overrides, default_location, resource, i) == default_location,
    decreases overrides.len() - i,
{
    if i < overrides.len() {
        lemma_located(overrides, default_location, resource, i + 1);
    }
}

} // verus!
