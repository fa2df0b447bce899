//! Execution-variant identity and qualification state.

use crate::engine::backend::BackendId;
use crate::engine::device::DeviceId;
use crate::engine::model::ModelId;
use crate::text::{blank, is_blank, is_whitespace};
use vstd::prelude::*;

verus! {

/// Name of an execution variant; never blank.
#[derive(Debug, Hash, PartialEq, Eq)]
pub struct ExecutionVariantId(String);

impl View for ExecutionVariantId {
    type V = Seq<char>;

    closed spec fn view(&self) -> Seq<char> {
        self.0@
    }
}

impl Clone for ExecutionVariantId {
    fn clone(&self) -> (r: Self)
        ensures
            r@ == self@,
    {
        proof {
            use_type_invariant(self);
        }
        ExecutionVariantId(self.0.clone())
    }
}

impl ExecutionVariantId {
    #[verifier::type_invariant]
    spec fn named(self) -> bool {
        !blank(self.0@)
    }

    /// # Errors
    /// Returns [`ExecutionVariantIdError`] when the identifier is empty.
    pub fn new(value: &str) -> (r: Result<Self, ExecutionVariantIdError>)
        ensures
            blank(value@)
                ==> r == Err::<ExecutionVariantId, ExecutionVariantIdError>(ExecutionVariantIdError),
            !blank(value@) ==> r is Ok && r->Ok_0@ == value@,
    {
        if is_blank(value) {
            return Err(ExecutionVariantIdError);
        }
        Ok(ExecutionVariantId(value.to_owned()))
    }

    #[must_use]
    pub fn as_str(&self) -> (r: &str)
        ensures
            r@ == self@,
            !blank(r@),
    {
        proof {
            use_type_invariant(self);
        }
        self.0.as_str()
    }

    /// Whether two identities are the same.
    #[must_use]
    pub fn same(&self, other: &ExecutionVariantId) -> (r: bool)
        ensures
            r == (self@ == other@),
    {
        self.0 == other.0
    }
}

#[derive(Clone, Copy, Debug, Hash, PartialEq, Eq, Structural)]
pub struct ExecutionVariantIdError;

#[derive(Clone, Copy, Debug, Hash, PartialEq, Eq, Structural)]
pub enum QualificationStatus {
    Qualified,
    Experimental,
    Incompatible,
}

/// Caller-supplied compatibility identity for a correctness qualification.
///
/// Artifact identity must cover the exact revision and quantization. Runtime identity must
/// cover the relevant hardware and software versions. State execution identity must cover
/// state layout, graph mode, speculation and distributed layout. These identities are
/// compared without discovering the environment.
#[derive(Debug, Hash, PartialEq, Eq)]
pub struct QualificationScope {
    model: ModelId,
    artifact_identity: String,
    backend: BackendId,
    device: DeviceId,
    runtime_identity: String,
    state_execution_identity: String,
}

/// The dimensions of a scope.
#[verifier::ext_equal]
pub struct QualificationScopeView {
    pub model: Seq<char>,
    pub artifact_identity: Seq<char>,
    pub backend: Seq<char>,
    pub device: DeviceId,
    pub runtime_identity: Seq<char>,
    pub state_execution_identity: Seq<char>,
}

impl View for QualificationScope {
    type V = QualificationScopeView;

    closed spec fn view(&self) -> QualificationScopeView {
        QualificationScopeView {
            model: self.model@,
            artifact_identity: self.artifact_identity@,
            backend: self.backend@,
            device: self.device,
            runtime_identity: self.runtime_identity@,
            state_execution_identity: self.state_execution_identity@,
        }
    }
}

impl Clone for QualificationScope {
    fn clone(&self) -> (r: Self)
        ensures
            r@ == self@,
    {
        proof {
            use_type_invariant(self);
        }
        QualificationScope {
            model: self.model.clone(),
            artifact_identity: self.artifact_identity.clone(),
            backend: self.backend.clone(),
            device: self.device,
            runtime_identity: self.runtime_identity.clone(),
            state_execution_identity: self.state_execution_identity.clone(),
        }
    }
}

impl QualificationScope {
    #[verifier::type_invariant]
    spec fn identified(self) -> bool {
        !blank(self.artifact_identity@) && !blank(self.runtime_identity@)
            && !blank(self.state_execution_identity@)
    }

    #[must_use]
    pub fn model(&self) -> (r: &ModelId)
        ensures
            r@ == self@.model,
    {
        &self.model
    }

    #[must_use]
    pub fn artifact_identity(&self) -> (r: &str)
        ensures
            r@ == self@.artifact_identity,
    {
        self.artifact_identity.as_str()
    }

    #[must_use]
    pub fn backend(&self) -> (r: &BackendId)
        ensures
            r@ == self@.backend,
    {
        &self.backend
    }

    #[must_use]
    pub fn device(&self) -> (r: DeviceId)
        ensures
            r == self@.device,
    {
        self.device
    }

    #[must_use]
    pub fn runtime_identity(&self) -> (r: &str)
        ensures
            r@ == self@.runtime_identity,
    {
        self.runtime_identity.as_str()
    }

    #[must_use]
    pub fn state_execution_identity(&self) -> (r: &str)
        ensures
            r@ == self@.state_execution_identity,
    {
        self.state_execution_identity.as_str()
    }
}

impl QualificationScope {
    /// # Errors
    /// Returns [`QualificationError::EmptyIdentity`] when a compatibility dimension is empty.
    pub fn new(
        model: ModelId,
        artifact_identity: &str,
        backend: BackendId,
        device: DeviceId,
        runtime_identity: &str,
        state_execution_identity: &str,
    ) -> (r: Result<Self, QualificationError>)
        ensures
            blank(artifact_identity@) || blank(runtime_identity@) || blank(
                state_execution_identity@,
            ) ==> r == Err::<QualificationScope, QualificationError>(
                QualificationError::EmptyIdentity,
            ),
            !blank(artifact_identity@) && !blank(runtime_identity@) && !blank(
                state_execution_identity@,
            ) ==> r is Ok && r->Ok_0@ == (QualificationScopeView {
                model: model@,
                artifact_identity: artifact_identity@,
                backend: backend@,
                device,
                runtime_identity: runtime_identity@,
                state_execution_identity: state_execution_identity@,
            }),
    {
        if is_blank(artifact_identity) || is_blank(runtime_identity) || is_blank(
            state_execution_identity,
        ) {
            return Err(QualificationError::EmptyIdentity);
        }
        Ok(
            QualificationScope {
                model,
                artifact_identity: artifact_identity.to_owned(),
                backend,
                device,
                runtime_identity: runtime_identity.to_owned(),
                state_execution_identity: state_execution_identity.to_owned(),
            },
        )
    }

    /// Whether two scopes agree in every dimension.
    #[must_use]
    pub fn same(&self, other: &QualificationScope) -> (r: bool)
        ensures
            r == (self@ == other@),
    {
        self.model.same(&other.model) && self.artifact_identity == other.artifact_identity
            && self.backend.same(&other.backend) && self.device == other.device
            && self.runtime_identity == other.runtime_identity && self.state_execution_identity
            == other.state_execution_identity
    }
}

/// Reference to externally established correctness evidence for one variant and
/// compatibility scope. Its issuer owns the checks behind it.
#[derive(Debug, Hash, PartialEq, Eq)]
pub struct QualificationEvidence {
    variant: ExecutionVariantId,
    scope: QualificationScope,
    evidence_id: String,
}

/// What evidence holds.
#[verifier::ext_equal]
pub struct QualificationEvidenceView {
    pub variant: Seq<char>,
    pub scope: QualificationScopeView,
    pub evidence_id: Seq<char>,
}

impl View for QualificationEvidence {
    type V = QualificationEvidenceView;

    closed spec fn view(&self) -> QualificationEvidenceView {
        QualificationEvidenceView {
            variant: self.variant@,
            scope: self.scope@,
            evidence_id: self.evidence_id@,
        }
    }
}

impl Clone for QualificationEvidence {
    fn clone(&self) -> (r: Self)
        ensures
            r@ == self@,
    {
        proof {
            use_type_invariant(self);
        }
        QualificationEvidence {
            variant: self.variant.clone(),
            scope: self.scope.clone(),
            evidence_id: self.evidence_id.clone(),
        }
    }
}

impl QualificationEvidence {
    #[verifier::type_invariant]
    spec fn referenced(self) -> bool {
        !blank(self.evidence_id@)
    }

    #[must_use]
    pub fn variant(&self) -> (r: &ExecutionVariantId)
        ensures
            r@ == self@.variant,
    {
        &self.variant
    }

    #[must_use]
    pub fn scope(&self) -> (r: &QualificationScope)
        ensures
            r@ == self@.scope,
    {
        &self.scope
    }

    #[must_use]
    pub fn evidence_id(&self) -> (r: &str)
        ensures
            r@ == self@.evidence_id,
    {
        self.evidence_id.as_str()
    }
}

impl QualificationEvidence {
    /// # Errors
    /// Returns [`QualificationError::EmptyIdentity`] when the external evidence reference is
    /// empty.
    pub fn new(variant: ExecutionVariantId, scope: QualificationScope, evidence_id: &str) -> (r:
        Result<Self, QualificationError>)
        ensures
            blank(evidence_id@) ==> r == Err::<QualificationEvidence, QualificationError>(
                QualificationError::EmptyIdentity,
            ),
            !blank(evidence_id@) ==> r is Ok && r->Ok_0@ == (QualificationEvidenceView {
                variant: variant@,
                scope: scope@,
                evidence_id: evidence_id@,
            }),
    {
        if is_blank(evidence_id) {
            return Err(QualificationError::EmptyIdentity);
        }
        Ok(QualificationEvidence { variant, scope, evidence_id: evidence_id.to_owned() })
    }
}

/// A named way to execute a plan, and what qualifies it.
#[derive(Debug, Hash, PartialEq, Eq)]
pub struct ExecutionVariant {
    id: ExecutionVariantId,
    status: QualificationStatus,
    evidence: Option<QualificationEvidence>,
}

/// What a variant holds.
#[verifier::ext_equal]
pub struct ExecutionVariantView {
    pub id: Seq<char>,
    pub status: QualificationStatus,
    pub evidence: Option<QualificationEvidenceView>,
}

impl View for ExecutionVariant {
    type V = ExecutionVariantView;

    closed spec fn view(&self) -> ExecutionVariantView {
        ExecutionVariantView {
            id: self.id@,
            status: self.status,
            evidence: match self.evidence {
                Some(evidence) => Some(evidence@),
                None => None,
            },
        }
    }
}

impl Clone for ExecutionVariant {
    fn clone(&self) -> (r: Self)
        ensures
            r@ == self@,
    {
        proof {
            use_type_invariant(self);
        }
        let evidence: Option<QualificationEvidence> = match &self.evidence {
            Some(evidence) => Some(evidence.clone()),
            None => None,
        };
        ExecutionVariant { id: self.id.clone(), status: self.status, evidence }
    }
}

impl ExecutionVariantView {
    /// Whether attached evidence names this variant.
    pub open spec fn attested(self) -> bool {
        self.evidence matches Some(evidence) ==> evidence.variant == self.id
    }

    /// Whether the variant may be selected without being asked for.
    pub open spec fn eligible(self, scope: QualificationScopeView) -> bool {
        self.status is Qualified && self.evidence is Some && self.evidence->Some_0.scope == scope
    }
}

/// The variant that executes a plan where none was chosen.
pub open spec fn baseline_variant() -> ExecutionVariantView {
    ExecutionVariantView {
        id: "baseline"@,
        status: QualificationStatus::Experimental,
        evidence: None,
    }
}

impl ExecutionVariant {
    #[verifier::type_invariant]
    spec fn consistent(self) -> bool {
        self@.attested()
    }

    #[must_use]
    pub fn baseline() -> (r: Self)
        ensures
            r@ == baseline_variant(),
    {
        proof {
            reveal_strlit("baseline");
            assert(!blank("baseline"@)) by {
                assert("baseline"@[0] == 'b');
                assert(!is_whitespace('b'));
            }
        }
        let id = ExecutionVariantId("baseline".to_owned());
        ExecutionVariant { id, status: QualificationStatus::Experimental, evidence: None }
    }

    #[must_use]
    pub fn new(id: ExecutionVariantId, status: QualificationStatus) -> (r: Self)
        ensures
            r@ == (ExecutionVariantView { id: id@, status, evidence: None }),
    {
        ExecutionVariant { id, status, evidence: None }
    }

    #[must_use]
    pub fn id(&self) -> (r: &ExecutionVariantId)
        ensures
            r@ == self@.id,
    {
        &self.id
    }

    #[must_use]
    pub fn status(&self) -> (r: QualificationStatus)
        ensures
            r == self@.status,
    {
        self.status
    }

    /// Attach qualification issued for this exact execution variant. Identity is checked,
    /// not the validity of the external measurements.
    ///
    /// # Errors
    /// Returns [`QualificationError::VariantMismatch`] when the evidence names another
    /// variant.
    pub fn with_qualification(self, evidence: QualificationEvidence) -> (r: Result<
        Self,
        QualificationError,
    >)
        ensures
            evidence@.variant != self@.id ==> r == Err::<ExecutionVariant, QualificationError>(
                QualificationError::VariantMismatch,
            ),
            evidence@.variant == self@.id ==> r is Ok && r->Ok_0@ == (ExecutionVariantView {
                id: self@.id,
                status: QualificationStatus::Qualified,
                evidence: Some(evidence@),
            }),
    {
        if !evidence.variant().same(&self.id) {
            return Err(QualificationError::VariantMismatch);
        }
        Ok(
            ExecutionVariant {
                id: self.id,
                status: QualificationStatus::Qualified,
                evidence: Some(evidence),
            },
        )
    }

    #[must_use]
    pub fn evidence(&self) -> (r: Option<&QualificationEvidence>)
        ensures
            match self@.evidence {
                Some(evidence) => r is Some && r->Some_0@ == evidence,
                None => r is None,
            },
    {
        self.evidence.as_ref()
    }

    /// Automatic selection requires qualification for the exact execution context being
    /// selected. A status label alone never authorizes it.
    #[must_use]
    pub fn eligible_for_automatic_selection(&self, scope: &QualificationScope) -> (r: bool)
        ensures
            r == self@.eligible(scope@),
    {
        if self.status != QualificationStatus::Qualified {
            return false;
        }
        match &self.evidence {
            Some(evidence) => evidence.scope().same(scope),
            None => false,
        }
    }
}

#[derive(Clone, Copy, Debug, Hash, PartialEq, Eq, Structural)]
pub enum QualificationError {
    EmptyIdentity,
    VariantMismatch,
}

/// A status label alone never makes a variant eligible.
pub proof fn law_labels_do_not_qualify(
    id: Seq<char>,
    status: QualificationStatus,
    scope: QualificationScopeView,
)
    ensures
        !(ExecutionVariantView { id, status, evidence: None }).eligible(scope),
{
}

/// A variant is eligible for one scope at most: evidence does not carry over to a scope
/// that differs in any dimension.
pub proof fn law_evidence_covers_one_scope(
    variant: ExecutionVariantView,
    one: QualificationScopeView,
    other: QualificationScopeView,
)
    requires
        variant.eligible(one),
        variant.eligible(other),
    ensures
        one == other,
{
}

} // verus!
