//! Immutable runtime-policy snapshots.

use crate::engine::model::ModelCapabilities;
use vstd::prelude::*;

verus! {

/// Version of a runtime policy; never zero.
#[derive(Clone, Copy, Debug, Hash, PartialEq, Eq, PartialOrd, Ord, Structural)]
pub struct PolicyVersion(u64);

impl View for PolicyVersion {
    type V = u64;

    closed spec fn view(&self) -> u64 {
        self.0
    }
}

impl PolicyVersion {
    #[verifier::type_invariant]
    spec fn nonzero(self) -> bool {
        self.0 != 0
    }

    #[must_use]
    pub fn new(value: u64) -> (r: Option<Self>)
        ensures
            value == 0 ==> r is None,
            value != 0 ==> r is Some && r->Some_0@ == value,
    {
        if value == 0 {
            None
        } else {
            Some(PolicyVersion(value))
        }
    }

    #[must_use]
    pub fn get(self) -> (r: u64)
        ensures
            r == self@,
            r != 0,
    {
        proof {
            use_type_invariant(&self);
        }
        self.0
    }

    /// An identity is determined by its number.
    pub proof fn lemma_determined(a: Self, b: Self)
        ensures
            a@ == b@ <==> a == b,
    {
    }
}

#[derive(Clone, Copy, Debug, Hash, PartialEq, Eq, Structural)]
pub enum StateTierPreference {
    Device,
    Host,
    Automatic,
}

#[derive(Clone, Copy, Debug, Hash, PartialEq, Eq, Structural)]
pub enum SpeculationPolicy {
    Disabled,
    NativeMtp { max_draft_tokens: u8 },
}

impl SpeculationPolicy {
    #[must_use]
    pub fn native_mtp(max_draft_tokens: u8) -> (r: Option<Self>)
        ensures
            max_draft_tokens == 0 ==> r is None,
            max_draft_tokens != 0 ==> r == Some(SpeculationPolicy::NativeMtp { max_draft_tokens }),
    {
        if max_draft_tokens == 0 {
            None
        } else {
            Some(SpeculationPolicy::NativeMtp { max_draft_tokens })
        }
    }
}

/// A snapshot is constructed once and passed to a scheduler or plan builder. Its batch
/// budgets are positive, and so is the draft budget of an enabled speculation.
#[derive(Clone, Copy, Debug, Hash, PartialEq, Eq, Structural)]
pub struct PolicySnapshot {
    version: PolicyVersion,
    max_batch_size: u32,
    max_batch_tokens: u32,
    state_tier: StateTierPreference,
    speculation: SpeculationPolicy,
}

/// What a snapshot holds.
#[verifier::ext_equal]
pub struct PolicySnapshotView {
    pub version: PolicyVersion,
    pub max_batch_size: u32,
    pub max_batch_tokens: u32,
    pub state_tier: StateTierPreference,
    pub speculation: SpeculationPolicy,
}

impl View for PolicySnapshot {
    type V = PolicySnapshotView;

    closed spec fn view(&self) -> PolicySnapshotView {
        PolicySnapshotView {
            version: self.version,
            max_batch_size: self.max_batch_size,
            max_batch_tokens: self.max_batch_tokens,
            state_tier: self.state_tier,
            speculation: self.speculation,
        }
    }
}

impl PolicySnapshot {
    #[must_use]
    pub fn version(self) -> (r: PolicyVersion)
        ensures
            r == self@.version,
    {
        self.version
    }

    #[must_use]
    pub fn max_batch_size(self) -> (r: u32)
        ensures
            r == self@.max_batch_size,
    {
        self.max_batch_size
    }

    #[must_use]
    pub fn max_batch_tokens(self) -> (r: u32)
        ensures
            r == self@.max_batch_tokens,
    {
        self.max_batch_tokens
    }

    #[must_use]
    pub fn state_tier(self) -> (r: StateTierPreference)
        ensures
            r == self@.state_tier,
    {
        self.state_tier
    }

    #[must_use]
    pub fn speculation(self) -> (r: SpeculationPolicy)
        ensures
            r == self@.speculation,
    {
        self.speculation
    }
}

/// Why a snapshot of these values is refused, if it is.
pub open spec fn snapshot_defect(
    max_batch_size: u32,
    max_batch_tokens: u32,
    speculation: SpeculationPolicy,
) -> Option<PolicyError> {
    if max_batch_size == 0 || max_batch_tokens == 0 {
        Some(PolicyError::ZeroBatchBudget)
    } else if speculation == (SpeculationPolicy::NativeMtp { max_draft_tokens: 0 }) {
        Some(PolicyError::ZeroDraftBudget)
    } else {
        None
    }
}

impl PolicySnapshot {
    #[verifier::type_invariant]
    spec fn budgeted(self) -> bool {
        snapshot_defect(self.max_batch_size, self.max_batch_tokens, self.speculation) is None
    }

    /// # Errors
    /// Returns an error when a batch or enabled speculation budget is zero.
    pub fn new(
        version: PolicyVersion,
        max_batch_size: u32,
        max_batch_tokens: u32,
        state_tier: StateTierPreference,
        speculation: SpeculationPolicy,
    ) -> (r: Result<Self, PolicyError>)
        ensures
            match snapshot_defect(max_batch_size, max_batch_tokens, speculation) {
                Some(error) => r == Err::<PolicySnapshot, PolicyError>(error),
                None => r is Ok && r->Ok_0@ == (PolicySnapshotView {
                    version,
                    max_batch_size,
                    max_batch_tokens,
                    state_tier,
                    speculation,
                }),
            },
    {
        if max_batch_size == 0 || max_batch_tokens == 0 {
            return Err(PolicyError::ZeroBatchBudget);
        }
        if let SpeculationPolicy::NativeMtp { max_draft_tokens } = speculation {
            if max_draft_tokens == 0 {
                return Err(PolicyError::ZeroDraftBudget);
            }
        }
        Ok(
            PolicySnapshot { version, max_batch_size, max_batch_tokens, state_tier, speculation },
        )
    }

    /// Validate model-specific policy choices before preparing a plan.
    ///
    /// # Errors
    /// Returns [`PolicyError::SpeculationUnavailable`] when native MTP is not advertised,
    /// or [`PolicyError::DraftBudgetExceedsCapability`] when its budget is larger than the
    /// model capability.
    pub fn validate_for(&self, capabilities: ModelCapabilities) -> (r: Result<(), PolicyError>)
        ensures
            r == match self@.speculation {
                SpeculationPolicy::Disabled => Ok::<(), PolicyError>(()),
                SpeculationPolicy::NativeMtp { max_draft_tokens } => match capabilities.mtp {
                    None => Err(PolicyError::SpeculationUnavailable),
                    Some(mtp) => if max_draft_tokens > mtp@.max_draft_tokens {
                        Err(PolicyError::DraftBudgetExceedsCapability)
                    } else {
                        Ok(())
                    },
                },
            },
    {
        if let SpeculationPolicy::NativeMtp { max_draft_tokens } = self.speculation {
            match capabilities.mtp() {
                None => {
                    return Err(PolicyError::SpeculationUnavailable);
                },
                Some(mtp) => {
                    if max_draft_tokens > mtp.max_draft_tokens() {
                        return Err(PolicyError::DraftBudgetExceedsCapability);
                    }
                },
            }
        }
        Ok(())
    }
}

#[derive(Clone, Copy, Debug, Hash, PartialEq, Eq, Structural)]
pub enum PolicyError {
    ZeroBatchBudget,
    ZeroDraftBudget,
    SpeculationUnavailable,
    DraftBudgetExceedsCapability,
}

} // verus!
