use ribn::engine::backend::BackendId;
use ribn::engine::device::DeviceId;
use ribn::engine::model::ModelId;
use ribn::engine::qualification::{
    ExecutionVariant, ExecutionVariantId, QualificationError, QualificationEvidence,
    QualificationScope, QualificationStatus,
};
use ribn::engine::readiness::{ReadinessError, ReadinessState, RuntimeReadiness};

fn scope_of(
    model: &str,
    artifact: &str,
    backend: &str,
    device: u32,
    runtime: &str,
    state_execution: &str,
) -> QualificationScope {
    QualificationScope::new(
        ModelId::new(model).expect("model"),
        artifact,
        BackendId::new(backend).expect("backend"),
        DeviceId::new(device),
        runtime,
        state_execution,
    )
    .expect("scope")
}

const ARTIFACT: &str = "sha256:artifact;q4";
const RUNTIME: &str = "sm89;driver-test;runtime-test";
const STATE: &str = "kv-v1;recurrent-v1;eager;no-spec;single-device";

fn scope() -> QualificationScope {
    scope_of("qwen", ARTIFACT, "cuda", 0, RUNTIME, STATE)
}

#[test]
fn automatic_selection_requires_evidence_matching_every_identity_dimension() {
    let expected = scope();
    let baseline = ExecutionVariant::baseline();
    assert!(!baseline.eligible_for_automatic_selection(&expected));
    let status_only = ExecutionVariant::new(baseline.id().clone(), QualificationStatus::Qualified);
    assert!(!status_only.eligible_for_automatic_selection(&expected));
    let evidence =
        QualificationEvidence::new(baseline.id().clone(), expected.clone(), "parity-run-1")
            .expect("evidence");
    let qualified = baseline.with_qualification(evidence).expect("qualify");
    assert!(qualified.eligible_for_automatic_selection(&expected));
    for dimension in 0..6 {
        let changed = match dimension {
            0 => scope_of("other-model", ARTIFACT, "cuda", 0, RUNTIME, STATE),
            1 => scope_of("qwen", "other-artifact", "cuda", 0, RUNTIME, STATE),
            2 => scope_of("qwen", ARTIFACT, "other-backend", 0, RUNTIME, STATE),
            3 => scope_of("qwen", ARTIFACT, "cuda", 1, RUNTIME, STATE),
            4 => scope_of("qwen", ARTIFACT, "cuda", 0, "other-runtime", STATE),
            5 => scope_of("qwen", ARTIFACT, "cuda", 0, RUNTIME, "other-state-execution"),
            _ => unreachable!(),
        };
        assert!(
            !qualified.eligible_for_automatic_selection(&changed),
            "dimension {dimension}"
        );
    }
}

#[test]
fn evidence_cannot_be_reused_for_another_variant() {
    let evidence = QualificationEvidence::new(
        ExecutionVariantId::new("other").expect("variant"),
        scope(),
        "parity-run-1",
    )
    .expect("evidence");
    assert_eq!(
        ExecutionVariant::baseline().with_qualification(evidence),
        Err(QualificationError::VariantMismatch)
    );
    assert!(QualificationEvidence::new(
        ExecutionVariantId::new("baseline").expect("variant"),
        scope(),
        " "
    )
    .is_err());
}

#[test]
fn scopes_require_every_identity() {
    assert!(matches!(
        QualificationScope::new(
            ModelId::new("qwen").expect("model"),
            ARTIFACT,
            BackendId::new("cuda").expect("backend"),
            DeviceId::new(0),
            "\n",
            STATE,
        ),
        Err(QualificationError::EmptyIdentity)
    ));
    assert!(ExecutionVariantId::new("").is_err());
}

#[test]
fn readiness_only_serves_after_preparation() {
    let mut readiness = RuntimeReadiness::default();
    assert!(!readiness.can_serve());
    readiness.transition(ReadinessState::Loading).expect("load");
    readiness
        .transition(ReadinessState::Preparing)
        .expect("prepare");
    readiness.transition(ReadinessState::Ready).expect("ready");
    assert!(readiness.can_serve());
    assert_eq!(
        readiness.transition(ReadinessState::Loading),
        Err(ReadinessError::InvalidTransition)
    );
}

#[test]
fn failed_runtimes_stay_failed() {
    let mut readiness = RuntimeReadiness::default();
    assert_eq!(
        readiness.transition(ReadinessState::Ready),
        Err(ReadinessError::InvalidTransition)
    );
    readiness.transition(ReadinessState::Failed).expect("fail");
    assert_eq!(
        readiness.transition(ReadinessState::Loading),
        Err(ReadinessError::InvalidTransition)
    );
    assert_eq!(readiness.state(), ReadinessState::Failed);
    assert!(!readiness.can_serve());
}
