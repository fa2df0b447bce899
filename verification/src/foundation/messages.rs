//! What the foundation's errors say.

use crate::foundation::parameter::ParameterError;
use crate::foundation::plan::{PlanError, StageId};
use crate::foundation::pool::ReserveError;
use crate::foundation::topology::TopologyError;
use crate::text::{decimal, number};
use vstd::prelude::*;

verus! {

impl ParameterError {
    /// What a parameter error says.
    pub open spec fn text(self) -> Seq<char> {
        match self {
            ParameterError::EmptyIdentity(kind) => kind@ + " identity must not be empty"@,
            ParameterError::EmptyMaterialization => {
                "parameter materialization must contain physical storage"@
            },
            ParameterError::MixedParameterVersions => {
                "parameter set contains more than one parameter version"@
            },
        }
    }

    /// Says a parameter error in words.
    #[must_use]
    pub fn message(&self) -> (r: String)
        ensures
            r@ == self.text(),
    {
        match self {
            ParameterError::EmptyIdentity(kind) => {
                let mut text = (*kind).to_owned();
                text.append(" identity must not be empty");
                text
            },
            ParameterError::EmptyMaterialization => {
                "parameter materialization must contain physical storage".to_owned()
            },
            ParameterError::MixedParameterVersions => {
                "parameter set contains more than one parameter version".to_owned()
            },
        }
    }
}

impl PlanError {
    /// What a plan error says.
    pub open spec fn text(self) -> Seq<char> {
        match self {
            PlanError::EmptyIdentity(kind) => kind@ + " identity must not be empty"@,
            PlanError::EmptyStagePlacement(stage) => {
                "stage "@ + decimal(stage.0 as nat) + " has no assigned device"@
            },
            PlanError::DuplicateStage(stage) => {
                "execution plan contains duplicate stage "@ + decimal(stage.0 as nat)
            },
            PlanError::UnknownDevice(stage) => {
                "stage "@ + decimal(stage.0 as nat)
                    + " references a device outside the resource topology"@
            },
        }
    }

    /// Says a plan error in words.
    #[must_use]
    pub fn message(&self) -> (r: String)
        ensures
            r@ == self.text(),
    {
        match self {
            PlanError::EmptyIdentity(kind) => {
                let mut text = (*kind).to_owned();
                text.append(" identity must not be empty");
                text
            },
            PlanError::EmptyStagePlacement(stage) => {
                let mut text = "stage ".to_owned();
                text.append(number(stage.get() as u64).as_str());
                text.append(" has no assigned device");
                text
            },
            PlanError::DuplicateStage(stage) => {
                let mut text = "execution plan contains duplicate stage ".to_owned();
                text.append(number(stage.get() as u64).as_str());
                text
            },
            PlanError::UnknownDevice(stage) => {
                let mut text = "stage ".to_owned();
                text.append(number(stage.get() as u64).as_str());
                text.append(" references a device outside the resource topology");
                text
            },
        }
    }
}

impl ReserveError {
    /// What a refused reservation says.
    pub open spec fn text(self) -> Seq<char> {
        match self {
            ReserveError::Exhausted { requested, available } => {
                "pool has "@ + decimal(available as nat) + " bytes available, "@
                    + decimal(requested as nat) + " requested"@
            },
            ReserveError::TooLarge { requested, capacity } => {
                "pool capacity "@ + decimal(capacity as nat) + " bytes cannot grant "@
                    + decimal(requested as nat) + " bytes"@
            },
            ReserveError::Closed => "pool is closed"@,
        }
    }

    /// Says a refused reservation in words.
    #[must_use]
    pub fn message(&self) -> (r: String)
        ensures
            r@ == self.text(),
    {
        match self {
            ReserveError::Exhausted { requested, available } => {
                let mut text = "pool has ".to_owned();
                text.append(number(*available as u64).as_str());
                text.append(" bytes available, ");
                text.append(number(*requested as u64).as_str());
                text.append(" requested");
                text
            },
            ReserveError::TooLarge { requested, capacity } => {
                let mut text = "pool capacity ".to_owned();
                text.append(number(*capacity as u64).as_str());
                text.append(" bytes cannot grant ");
                text.append(number(*requested as u64).as_str());
                text.append(" bytes");
                text
            },
            ReserveError::Closed => "pool is closed".to_owned(),
        }
    }
}

impl TopologyError {
    /// What a topology error says.
    pub open spec fn text(self) -> Seq<char> {
        match self {
            TopologyError::EmptyBackend => "backend identity must not be empty"@,
            TopologyError::DuplicateDevice => "resource topology contains a duplicate device"@,
            TopologyError::UnknownLinkEndpoint => {
                "resource topology link references an unknown device"@
            },
        }
    }

    /// Says a topology error in words.
    #[must_use]
    pub fn message(&self) -> (r: String)
        ensures
            r@ == self.text(),
    {
        match self {
            TopologyError::EmptyBackend => "backend identity must not be empty".to_owned(),
            TopologyError::DuplicateDevice => {
                "resource topology contains a duplicate device".to_owned()
            },
            TopologyError::UnknownLinkEndpoint => {
                "resource topology link references an unknown device".to_owned()
            },
        }
    }
}
/// A refused reservation names what was asked for and what there is.
pub proof fn law_refusals_name_their_bytes(requested: u64, found: u64)
    ensures
        (ReserveError::Exhausted { requested, available: found }).text() == "pool has "@ + decimal(
            found as nat,
        ) + " bytes available, "@ + decimal(requested as nat) + " requested"@,
        (ReserveError::TooLarge { requested, capacity: found }).text() == "pool capacity "@
            + decimal(found as nat) + " bytes cannot grant "@ + decimal(requested as nat)
            + " bytes"@,
{
}

/// A refused plan names the stage that it was refused for.
pub proof fn law_refused_plans_name_their_stage(stage: StageId)
    ensures
        PlanError::EmptyStagePlacement(stage).text() == "stage "@ + decimal(stage.0 as nat)
            + " has no assigned device"@,
        PlanError::DuplicateStage(stage).text() == "execution plan contains duplicate stage "@
            + decimal(stage.0 as nat),
        PlanError::UnknownDevice(stage).text() == "stage "@ + decimal(stage.0 as nat)
            + " references a device outside the resource topology"@,
{
}

} // verus!
