use ribn::engine::backend::BackendSubmissionId;
use ribn::engine::execution::ExecutionPhase;
use ribn::engine::model::ModelId;
use ribn::engine::request::{
    RequestId, RequestSemantics, RequestSpec, SamplingParams, ThinkingMode,
};
use ribn::engine::serving::{
    RequestLifecycle, RequestProgress, RequestSlotError, RequestSlots,
};
use ribn::engine::state::InferenceStateSet;

fn request(id: u64) -> RequestSpec {
    let semantics = RequestSemantics::new(8, SamplingParams::greedy(Some(42)), ThinkingMode::Off)
        .expect("request semantics");
    RequestSpec::new(
        RequestId::new(id).expect("request ID"),
        ModelId::new("test/model").expect("model ID"),
        semantics,
    )
}

fn empty_state() -> InferenceStateSet {
    InferenceStateSet::new(Vec::new()).expect("state")
}

#[test]
fn reused_slots_invalidate_stale_generation_ids() {
    let mut slots = RequestSlots::default();
    let first = slots
        .insert(request(1), empty_state(), 4)
        .expect("first slot");
    slots
        .get_mut(first)
        .expect("first request")
        .request_cancel()
        .expect("cancel");
    slots.remove(first).expect("remove first request");

    let second = slots
        .insert(request(2), empty_state(), 4)
        .expect("second slot");

    assert_eq!(first.index(), second.index());
    assert_ne!(first.generation(), second.generation());
    assert!(slots.get(first).is_none());
    assert_eq!(
        slots.get(second).expect("second request").request().id(),
        RequestId::new(2).expect("request ID")
    );
}

#[test]
fn in_flight_cancellation_waits_for_backend_completion() {
    let mut slots = RequestSlots::default();
    let id = slots.insert(request(1), empty_state(), 4).expect("slot");
    let submission = BackendSubmissionId::new(1).expect("submission");

    let slot = slots.get_mut(id).expect("request");
    slot.make_runnable().expect("admit");
    let state = slot.prepare_submission().expect("prepare");
    assert_eq!(slot.lifecycle(), RequestLifecycle::Submitting);
    assert!(slot.state().is_none());
    slot.confirm_submission(submission).expect("submit");
    slot.request_cancel().expect("cancel request");
    assert_eq!(slot.lifecycle(), RequestLifecycle::Cancelling(submission));

    assert!(matches!(
        slots.remove(id),
        Err(RequestSlotError::RequestStillActive)
    ));

    let slot = slots.get_mut(id).expect("request");
    slot.complete_step(submission, ExecutionPhase::Decode, 1, state)
        .expect("complete cancelled work");
    assert_eq!(slot.lifecycle(), RequestLifecycle::Cancelled);
    assert!(slot.state().is_some());
    slots.remove(id).expect("reclaim cancelled request");
}

#[test]
fn speculative_work_does_not_claim_committed_output() {
    let mut progress = RequestProgress::new(8);
    progress
        .record(ExecutionPhase::Prefill, 8)
        .expect("prefill");
    progress
        .record(ExecutionPhase::SpecDraft, 4)
        .expect("draft");
    progress
        .record(ExecutionPhase::SpecVerify, 4)
        .expect("verify");
    assert_eq!(progress.generated_tokens(), 0);
    progress.record(ExecutionPhase::Decode, 1).expect("decode");
    assert_eq!(progress.generated_tokens(), 1);
}

#[test]
fn progress_never_overruns_the_prompt() {
    let mut progress = RequestProgress::new(4);
    progress.record(ExecutionPhase::Prefill, 3).expect("chunk");
    assert_eq!(
        progress.record(ExecutionPhase::Prefill, 2),
        Err(RequestSlotError::ProgressOverflow)
    );
    assert_eq!(progress.prompt_processed(), 3);
    assert_eq!(
        progress.record(ExecutionPhase::Decode, u32::MAX),
        Ok(())
    );
    assert_eq!(
        progress.record(ExecutionPhase::Decode, 1),
        Err(RequestSlotError::ProgressOverflow)
    );
}

#[test]
fn slots_refuse_duplicates_and_foreign_submissions() {
    let mut slots = RequestSlots::default();
    let id = slots.insert(request(1), empty_state(), 4).expect("slot");
    let refused = slots
        .insert(request(1), empty_state(), 4)
        .expect_err("duplicate");
    assert_eq!(
        refused.into_parts().0,
        RequestSlotError::DuplicateRequest(RequestId::new(1).expect("request ID"))
    );
    assert_eq!(slots.len(), 1);
    let one = BackendSubmissionId::new(1).expect("submission");
    let two = BackendSubmissionId::new(2).expect("submission");
    let slot = slots.get_mut(id).expect("request");
    assert_eq!(
        slot.prepare_submission(),
        Err(RequestSlotError::InvalidTransition)
    );
    slot.make_runnable().expect("admit");
    let state = slot.prepare_submission().expect("prepare");
    slot.confirm_submission(one).expect("submit");
    assert_eq!(
        slot.complete_step(two, ExecutionPhase::Prefill, 1, empty_state()),
        Err(RequestSlotError::SubmissionMismatch)
    );
    slot.fail_submission(one, state).expect("fail");
    assert_eq!(slot.lifecycle(), RequestLifecycle::Failed);
    assert_eq!(slot.mark_failed(), Err(RequestSlotError::InvalidTransition));
    let mut removed = slots.remove(id).expect("remove");
    assert!(removed.take_terminal_state().is_ok());
    assert_eq!(
        removed.take_terminal_state(),
        Err(RequestSlotError::StateUnavailable)
    );
    assert!(matches!(
        slots.remove(id),
        Err(RequestSlotError::UnknownSlot)
    ));
    assert!(slots.is_empty());
}

#[test]
fn no_identity_is_issued_twice_or_resolves_after_its_request_left() {
    let mut slots = RequestSlots::default();
    let mut issued = Vec::new();
    let mut left = Vec::new();
    let mut resident = Vec::new();
    for round in 0..20_u64 {
        let id = slots
            .insert(request(round + 1), empty_state(), 4)
            .expect("slot");
        assert!(!issued.contains(&id));
        issued.push(id);
        resident.push(id);
        if round % 3 != 0 {
            let gone = resident.remove((round as usize * 7) % resident.len());
            slots
                .get_mut(gone)
                .expect("request")
                .request_cancel()
                .expect("cancel");
            slots.remove(gone).expect("remove");
            left.push(gone);
        }
        assert!(left.iter().all(|id| slots.get(*id).is_none()));
        assert!(resident.iter().all(|id| slots.get(*id).is_some()));
    }
    assert_eq!(slots.len(), resident.len());
    assert!(issued.iter().any(|id| id.generation() > 2));
}
