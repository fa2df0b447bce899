//! Prepared placement: which stages a model runs in, and on which devices.

use crate::foundation::parameter::ParameterVersion;
use crate::foundation::topology::{knows, ComputeDevice, DeviceId, ResourceTopology};
use crate::text::{blank, is_blank};
use vstd::prelude::*;

verus! {

/// Name of a model; never blank.
#[derive(Debug, Hash, PartialEq, Eq)]
pub struct ModelIdentity(String);

impl View for ModelIdentity {
    type V = Seq<char>;

    closed spec fn view(&self) -> Seq<char> {
        self.0@
    }
}

impl Clone for ModelIdentity {
    fn clone(&self) -> (r: Self)
        ensures
            r == *self,
    {
        proof {
            use_type_invariant(self);
        }
        ModelIdentity(self.0.clone())
    }
}

impl ModelIdentity {
    #[verifier::type_invariant]
    spec fn named(self) -> bool {
        !blank(self.0@)
    }

    /// # Errors
    /// Returns an error for an empty model identity.
    pub fn new(value: &str) -> (r: Result<Self, PlanError>)
        ensures
            blank(value@) ==> r == Err::<ModelIdentity, PlanError>(
                PlanError::EmptyIdentity("model"),
            ),
            !blank(value@) ==> r is Ok && r->Ok_0@ == value@,
    {
        if is_blank(value) {
            return Err(PlanError::EmptyIdentity("model"));
        }
        Ok(ModelIdentity(value.to_owned()))
    }

    #[must_use]
    pub fn as_str(&self) -> (r: &str)
        ensures
            r@ == self@,
            !blank(r@),
    {
        proof {
            use_type_invariant(self);
        }
        self.0.as_str()
    }
}

#[derive(Clone, Copy, Debug, Hash, PartialEq, Eq, Structural)]
pub struct StageId(pub u32);

impl StageId {
    #[must_use]
    pub fn new(value: u32) -> (r: Self)
        ensures
            r.0 == value,
    {
        StageId(value)
    }

    #[must_use]
    pub fn get(self) -> (r: u32)
        ensures
            r == self.0,
    {
        self.0
    }
}

/// Name of the runtime that executes a stage; never blank.
#[derive(Debug, Hash, PartialEq, Eq)]
pub struct RuntimeClass(String);

impl View for RuntimeClass {
    type V = Seq<char>;

    closed spec fn view(&self) -> Seq<char> {
        self.0@
    }
}

impl Clone for RuntimeClass {
    fn clone(&self) -> (r: Self)
        ensures
            r == *self,
    {
        proof {
            use_type_invariant(self);
        }
        RuntimeClass(self.0.clone())
    }
}

impl RuntimeClass {
    #[verifier::type_invariant]
    spec fn named(self) -> bool {
        !blank(self.0@)
    }

    /// # Errors
    /// Returns an error for an empty runtime class.
    pub fn new(value: &str) -> (r: Result<Self, PlanError>)
        ensures
            blank(value@) ==> r == Err::<RuntimeClass, PlanError>(
                PlanError::EmptyIdentity("runtime class"),
            ),
            !blank(value@) ==> r is Ok && r->Ok_0@ == value@,
    {
        if is_blank(value) {
            return Err(PlanError::EmptyIdentity("runtime class"));
        }
        Ok(RuntimeClass(value.to_owned()))
    }

    #[must_use]
    pub fn as_str(&self) -> (r: &str)
        ensures
            r@ == self@,
            !blank(r@),
    {
        proof {
            use_type_invariant(self);
        }
        self.0.as_str()
    }
}

/// One stage, its runtime and the ordered devices that run it; there is at least one.
#[derive(Debug, PartialEq, Eq)]
pub struct StagePlacement {
    stage: StageId,
    runtime: RuntimeClass,
    devices: Vec<DeviceId>,
}

/// What a placement holds.
pub struct StagePlacementView {
    pub stage: StageId,
    pub runtime: RuntimeClass,
    pub devices: Seq<DeviceId>,
}

impl View for StagePlacement {
    type V = StagePlacementView;

    closed spec fn view(&self) -> StagePlacementView {
        StagePlacementView {
            stage: self.stage,
            runtime: self.runtime,
            devices: self.devices@,
        }
    }
}

impl Clone for StagePlacement {
    fn clone(&self) -> (r: Self)
        ensures
            r@ == self@,
    {
        proof {
            use_type_invariant(self);
        }
        let devices = self.devices.clone();
        assert(devices@ =~= self.devices@);
        StagePlacement { stage: self.stage, runtime: self.runtime.clone(), devices }
    }
}

impl StagePlacement {
    #[verifier::type_invariant]
    spec fn placed(self) -> bool {
        self.devices@.len() > 0
    }

    /// # Errors
    /// Returns an error when a stage has no assigned device.
    pub fn new(stage: StageId, runtime: RuntimeClass, devices: Vec<DeviceId>) -> (r: Result<
        Self,
        PlanError,
    >)
        ensures
            devices@.len() == 0 ==> r == Err::<StagePlacement, PlanError>(
                PlanError::EmptyStagePlacement(stage),
            ),
            devices@.len() > 0 ==> r is Ok && r->Ok_0@ == (StagePlacementView {
                stage,
                runtime,
                devices: devices@,
            }),
    {
        if devices.is_empty() {
            return Err(PlanError::EmptyStagePlacement(stage));
        }
        Ok(StagePlacement { stage, runtime, devices })
    }

    #[must_use]
    pub fn stage(&self) -> (r: StageId)
        ensures
            r == self@.stage,
    {
        self.stage
    }

    #[must_use]
    pub fn runtime(&self) -> (r: &RuntimeClass)
        ensures
            *r == self@.runtime,
    {
        &self.runtime
    }

    #[must_use]
    pub fn devices(&self) -> (r: &[DeviceId])
        ensures
            r@ == self@.devices,
            r@.len() > 0,
    {
        proof {
            use_type_invariant(self);
        }
        self.devices.as_slice()
    }
}

/// A model's stages, each once, on devices of one topology.
#[derive(Debug, PartialEq, Eq)]
pub struct ExecutionPlan {
    model: ModelIdentity,
    parameter_version: ParameterVersion,
    stages: Vec<StagePlacement>,
}

/// What a plan holds.
pub struct ExecutionPlanView {
    pub model: ModelIdentity,
    pub parameter_version: ParameterVersion,
    pub stages: Seq<StagePlacement>,
}

/// Whether stage `i` repeats the identity of an earlier stage.
pub open spec fn repeats_stage(stages: Seq<StagePlacement>, i: int) -> bool {
    exists|j: int| 0 <= j < i && (#[trigger] stages[j])@.stage == stages[i]@.stage
}

/// Whether a placement names a device that is not among `devices`.
pub open spec fn leaves_topology(stage: StagePlacementView, devices: Seq<ComputeDevice>) -> bool {
    exists|k: int|
        0 <= k < stage.devices.len() && !knows(devices, (#[trigger] stage.devices[k])@)
}

/// Why stage `i` of a plan is refused, if it is.
pub open spec fn stage_defect(
    stages: Seq<StagePlacement>,
    devices: Seq<ComputeDevice>,
    i: int,
) -> Option<PlanError> {
    if repeats_stage(stages, i) {
        Some(PlanError::DuplicateStage(stages[i]@.stage))
    } else if leaves_topology(stages[i]@, devices) {
        Some(PlanError::UnknownDevice(stages[i]@.stage))
    } else {
        None
    }
}

/// The defect of the first defective stage from `i` on.
pub open spec fn first_defect(
    stages: Seq<StagePlacement>,
    devices: Seq<ComputeDevice>,
    i: int,
) -> Option<PlanError>
    decreases stages.len() - i,
{
    if i < 0 || i >= stages.len() {
        None
    } else if stage_defect(stages, devices, i) is Some {
        stage_defect(stages, devices, i)
    } else {
        first_defect(stages, devices, i + 1)
    }
}

impl View for ExecutionPlan {
    type V = ExecutionPlanView;

    closed spec fn view(&self) -> ExecutionPlanView {
        ExecutionPlanView {
            model: self.model,
            parameter_version: self.parameter_version,
            stages: self.stages@,
        }
    }
}

impl Clone for ExecutionPlan {
    fn clone(&self) -> (r: Self)
        ensures
            r@.model == self@.model,
            r@.parameter_version == self@.parameter_version,
            r@.stages.len() == self@.stages.len(),
            forall|i: int| 0 <= i < r@.stages.len()
                ==> (#[trigger] r@.stages[i])@ == self@.stages[i]@,
    {
        let stages = self.stages.clone();
        assert(forall|i: int|
            0 <= i < stages@.len() ==> (#[trigger] stages@[i])@ == self.stages@[i]@);
        ExecutionPlan {
            model: self.model.clone(),
            parameter_version: self.parameter_version,
            stages,
        }
    }
}

impl ExecutionPlan {
    /// # Errors
    /// Returns an error for duplicate stage IDs or devices outside the supplied topology.
    pub fn new(
        model: ModelIdentity,
        parameter_version: ParameterVersion,
        stages: Vec<StagePlacement>,
        topology: &ResourceTopology,
    ) -> (r: Result<Self, PlanError>)
        ensures
            match first_defect(stages@, topology.spec_devices(), 0) {
                Some(error) => r == Err::<ExecutionPlan, PlanError>(error),
                None => r is Ok && r->Ok_0@ == (ExecutionPlanView {
                    model,
                    parameter_version,
                    stages: stages@,
                }),
            },
    {
        let ghost known = topology.spec_devices();
        let mut index: usize = 0;
        while index < stages.len()
            invariant
                index <= stages.len(),
                known == topology.spec_devices(),
                first_defect(stages@, known, 0) == first_defect(stages@, known, index as int),
            decreases stages.len() - index,
        {
            let stage: StageId = stages[index].stage();
            let mut earlier: usize = 0;
            while earlier < index
                invariant
                    earlier <= index < stages.len(),
                    known == topology.spec_devices(),
                    stage == stages@[index as int]@.stage,
                    first_defect(stages@, known, 0) == first_defect(stages@, known, index as int),
                    forall|j: int| 0 <= j < earlier ==> (#[trigger] stages@[j])@.stage != stage,
                decreases index - earlier,
            {
                if stages[earlier].stage() == stage {
                    assert(repeats_stage(stages@, index as int)) by {
                        assert(stages@[earlier as int]@.stage == stage);
                    }
                    return Err(PlanError::DuplicateStage(stage));
                }
                earlier += 1;
            }
            let devices = stages[index].devices();
            let mut device: usize = 0;
            while device < devices.len()
                invariant
                    device <= devices.len(),
                    index < stages.len(),
                    devices@ == stages@[index as int]@.devices,
                    stage == stages@[index as int]@.stage,
                    known == topology.spec_devices(),
                    first_defect(stages@, known, 0) == first_defect(stages@, known, index as int),
                    !repeats_stage(stages@, index as int),
                    forall|k: int| 0 <= k < device ==> knows(known, (#[trigger] devices@[k])@),
                decreases devices.len() - device,
            {
                if !topology.contains(&devices[device]) {
                    return Err(PlanError::UnknownDevice(stage));
                }
                device += 1;
            }
            index += 1;
        }
        Ok(ExecutionPlan { model, parameter_version, stages })
    }

    #[must_use]
    pub fn model(&self) -> (r: &ModelIdentity)
        ensures
            *r == self@.model,
    {
        &self.model
    }

    #[must_use]
    pub fn parameter_version(&self) -> (r: ParameterVersion)
        ensures
            r == self@.parameter_version,
    {
        self.parameter_version
    }

    #[must_use]
    pub fn stages(&self) -> (r: &[StagePlacement])
        ensures
            r@ == self@.stages,
    {
        self.stages.as_slice()
    }
}

#[derive(Clone, Copy, Debug, PartialEq, Eq)]
pub enum PlanError {
    EmptyIdentity(&'static str),
    EmptyStagePlacement(StageId),
    DuplicateStage(StageId),
    UnknownDevice(StageId),
}

/// A plan is accepted exactly when no stage occurs twice and every stage stays on
/// devices of the topology; only then is there no defect to report.
pub proof fn law_accepted_plans_are_consistent(
    stages: Seq<StagePlacement>,
    devices: Seq<ComputeDevice>,
)
    ensures
        first_defect(stages, devices, 0) is None <==> {
            &&& forall|i: int, j: int|
                0 <= i < j < stages.len() ==> (#[trigger] stages[i])@.stage != (
                #[trigger] stages[j])@.stage
            &&& forall|i: int|
                0 <= i < stages.len() ==> !leaves_topology((#[trigger] stages[i])@, devices)
        },
{
    lemma_no_defect_from(stages, devices, 0);
    if first_defect(stages, devices, 0) is None {
        assert forall|i: int, j: int| 0 <= i < j < stages.len() implies (
        #[trigger] stages[i])@.stage != (#[trigger] stages[j])@.stage by {
            assert(stage_defect(stages, devices, j) is None);
        }
        assert forall|i: int| 0 <= i < stages.len() implies !leaves_topology(
            (#[trigger] stages[i])@,
            devices,
        ) by {
            assert(stage_defect(stages, devices, i) is None);
        }
    }
}

proof fn lemma_no_defect_from(stages: Seq<StagePlacement>, devices: Seq<ComputeDevice>, i: int)
    requires
        0 <= i <= stages.len(),
    ensures
        first_defect(stages, devices, i) is None <==> forall|k: int|
            i <= k < stages.len() ==> #[trigger] stage_defect(stages, devices, k) is None,
    decreases stages.len() - i,
{
    if i < stages.len() {
        lemma_no_defect_from(stages, devices, i + 1);
    }
}

} // verus!
