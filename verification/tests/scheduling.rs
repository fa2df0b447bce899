use ribn::engine::backend::BackendSubmissionId;
use ribn::engine::execution::{
    ExecutionBatchEvent, ExecutionEvent, ExecutionMetrics, ExecutionPhase,
};
use ribn::engine::model::ModelId;
use ribn::engine::policy::{
    PolicySnapshot, PolicyVersion, SpeculationPolicy, StateTierPreference,
};
use ribn::engine::request::{
    RequestId, RequestSemantics, RequestSpec, SamplingParams, ThinkingMode,
};
use ribn::engine::scheduler::{
    ScheduledWork, SchedulerConfig, SchedulerError, ServingScheduler,
};
use ribn::engine::serving::RequestLifecycle;
use ribn::engine::state::InferenceStateSet;

fn policy(max_batch_size: u32, max_batch_tokens: u32) -> PolicySnapshot {
    PolicySnapshot::new(
        PolicyVersion::new(1).expect("policy version"),
        max_batch_size,
        max_batch_tokens,
        StateTierPreference::Automatic,
        SpeculationPolicy::Disabled,
    )
    .expect("policy")
}

fn request(id: u64, max_output_tokens: u32) -> RequestSpec {
    RequestSpec::new(
        RequestId::new(id).expect("request ID"),
        ModelId::new("test/model").expect("model ID"),
        RequestSemantics::new(
            max_output_tokens,
            SamplingParams::greedy(Some(id)),
            ThinkingMode::Off,
        )
        .expect("semantics"),
    )
}

fn state() -> InferenceStateSet {
    InferenceStateSet::new(Vec::new()).expect("empty state")
}

fn event(work: ScheduledWork) -> ExecutionBatchEvent {
    completion(work, None)
}

fn completion(work: ScheduledWork, output_token: Option<u32>) -> ExecutionBatchEvent {
    let event = ExecutionEvent::new(
        work.request(),
        PolicyVersion::new(1).expect("policy version"),
        work.phase(),
        work.token_count(),
        ExecutionMetrics::new(1, 0, 0),
    )
    .expect("execution event");
    ExecutionBatchEvent::new(vec![match output_token {
        Some(token) => event.with_output_token(token),
        None => event,
    }])
    .expect("batch event")
}

#[test]
fn admission_is_bounded_and_promotes_oldest_waiter() {
    let config = SchedulerConfig::new(1, 1, 4).expect("config");
    let mut scheduler = ServingScheduler::new(policy(1, 4), config);
    scheduler
        .admit_request(request(1, 2), state(), 0)
        .expect("first");
    scheduler
        .admit_request(request(2, 2), state(), 0)
        .expect("second");
    assert_eq!(scheduler.counts().runnable(), 1);
    assert_eq!(scheduler.counts().waiting(), 1);
    assert_eq!(
        scheduler
            .admit_request(request(3, 2), state(), 0)
            .map_err(|refused| refused.into_parts().0),
        Err(SchedulerError::Backpressure)
    );

    scheduler
        .cancel(RequestId::new(1).expect("request ID"))
        .expect("cancel");
    assert_eq!(scheduler.counts().terminal(), 1);
    assert_eq!(scheduler.counts().waiting(), 0);
    assert_eq!(scheduler.counts().runnable(), 1);
    let work = scheduler.schedule().expect("schedule");
    assert_eq!(work[0].request(), RequestId::new(2).expect("request ID"));
}

#[test]
fn decode_precedes_chunked_prefill_under_shared_budget() {
    let config = SchedulerConfig::new(3, 0, 3).expect("config");
    let mut scheduler = ServingScheduler::new(policy(3, 4), config);
    scheduler
        .admit_request(request(1, 4), state(), 0)
        .expect("decode");
    scheduler
        .admit_request(request(2, 4), state(), 10)
        .expect("prefill");
    scheduler
        .admit_request(request(3, 4), state(), 10)
        .expect("prefill");

    let work = scheduler.schedule().expect("schedule");
    assert_eq!(work.len(), 2);
    assert_eq!(work[0].request(), RequestId::new(1).expect("request ID"));
    assert_eq!(work[0].phase(), ExecutionPhase::Decode);
    assert_eq!(work[0].token_count(), 1);
    assert_eq!(work[1].request(), RequestId::new(2).expect("request ID"));
    assert_eq!(work[1].phase(), ExecutionPhase::Prefill);
    assert_eq!(work[1].token_count(), 3);
}

#[test]
fn completion_rotates_runnable_requests_and_finishes_output_budget() {
    let config = SchedulerConfig::new(2, 0, 4).expect("config");
    let mut scheduler = ServingScheduler::new(policy(2, 2), config);
    scheduler
        .admit_request(request(1, 1), state(), 0)
        .expect("first");
    scheduler
        .admit_request(request(2, 2), state(), 0)
        .expect("second");
    let work = scheduler.schedule().expect("schedule");
    let first = work[0];
    let submission = BackendSubmissionId::new(1).expect("submission");
    scheduler
        .begin_submission(first, submission)
        .expect("begin submission");
    scheduler
        .complete_submission(submission, &event(first), &mut vec![state()])
        .expect("complete");
    assert_eq!(scheduler.counts().terminal(), 1);
    let next = scheduler.schedule().expect("next schedule");
    assert_eq!(next[0].request(), RequestId::new(2).expect("request ID"));
}

#[test]
fn in_flight_cancel_waits_for_backend_completion_before_reclaim() {
    let config = SchedulerConfig::new(1, 0, 4).expect("config");
    let mut scheduler = ServingScheduler::new(policy(1, 1), config);
    let request_id = RequestId::new(1).expect("request ID");
    scheduler
        .admit_request(request(1, 4), state(), 0)
        .expect("admit");
    let work = scheduler.schedule().expect("schedule")[0];
    let submission = BackendSubmissionId::new(1).expect("submission");
    scheduler
        .begin_submission(work, submission)
        .expect("begin submission");
    scheduler.cancel(request_id).expect("cancel");
    assert_eq!(scheduler.counts().in_flight(), 1);
    assert_eq!(scheduler.counts().terminal(), 0);
    assert!(scheduler.reclaim_next().is_none());

    scheduler
        .complete_submission(submission, &event(work), &mut vec![state()])
        .expect("completion");
    assert_eq!(scheduler.counts().in_flight(), 0);
    assert_eq!(scheduler.counts().terminal(), 1);
    let reclaimed = scheduler.reclaim_next().expect("terminal request");
    assert_eq!(reclaimed.request().id(), request_id);
}

#[test]
fn only_the_final_prefill_chunk_requests_an_output_token() {
    let config = SchedulerConfig::new(1, 0, 3).expect("scheduler config");
    let mut scheduler = ServingScheduler::new(policy(1, 3), config);
    scheduler
        .admit_request(request(1, 2), state(), 5)
        .expect("admit request");

    let first = scheduler.schedule().expect("first schedule");
    assert_eq!(first.len(), 1);
    assert_eq!(first[0].phase(), ExecutionPhase::Prefill);
    assert_eq!(first[0].token_count(), 3);
    assert!(!first[0].requests_output());
    let mut first_states = scheduler
        .prepare_submission(&first)
        .expect("prepare first chunk");
    let first_submission = BackendSubmissionId::new(1).expect("submission ID");
    scheduler
        .confirm_submission(first.clone(), first_submission)
        .expect("confirm first chunk");
    scheduler
        .complete_submission(
            first_submission,
            &completion(first[0], None),
            &mut first_states,
        )
        .expect("complete first chunk");

    let second = scheduler.schedule().expect("second schedule");
    assert_eq!(second.len(), 1);
    assert_eq!(second[0].phase(), ExecutionPhase::Prefill);
    assert_eq!(second[0].token_count(), 2);
    assert_eq!(second[0].state_position(), 3);
    assert!(second[0].requests_output());
    let mut second_states = scheduler
        .prepare_submission(&second)
        .expect("prepare final chunk");
    let second_submission = BackendSubmissionId::new(2).expect("submission ID");
    scheduler
        .confirm_submission(second.clone(), second_submission)
        .expect("confirm final chunk");
    scheduler
        .complete_submission(
            second_submission,
            &completion(second[0], Some(7)),
            &mut second_states,
        )
        .expect("complete final chunk");

    let slot_id = scheduler
        .slot_for_request(RequestId::new(1).expect("request ID"))
        .expect("request slot");
    let slot = scheduler.slots().get(slot_id).expect("request slot");
    assert_eq!(slot.progress().prompt_processed(), 5);
    assert_eq!(slot.progress().generated_tokens(), 1);
    assert_eq!(slot.progress().decode_processed(), 0);

    let decode = scheduler.schedule().expect("decode schedule");
    assert_eq!(decode.len(), 1);
    assert_eq!(decode[0].phase(), ExecutionPhase::Decode);
    assert_eq!(decode[0].state_position(), 5);
    assert!(decode[0].requests_output());
}

#[test]
fn configurations_without_room_are_refused() {
    assert_eq!(
        SchedulerConfig::new(0, 4, 4),
        Err(SchedulerError::InvalidConfig)
    );
    assert_eq!(
        SchedulerConfig::new(4, 4, 0),
        Err(SchedulerError::InvalidConfig)
    );
    assert_eq!(
        SchedulerConfig::new(usize::MAX, 1, 4),
        Err(SchedulerError::InvalidConfig)
    );
    assert_eq!(
        SchedulerConfig::new(3, 4, 5)
            .expect("config")
            .max_resident_requests(),
        7
    );
}

#[test]
fn stale_work_and_live_submissions_are_refused() {
    let config = SchedulerConfig::new(2, 0, 4).expect("config");
    let mut scheduler = ServingScheduler::new(policy(2, 8), config);
    scheduler
        .admit_request(request(1, 4), state(), 6)
        .expect("first");
    scheduler
        .admit_request(request(2, 4), state(), 0)
        .expect("second");
    assert_eq!(
        scheduler
            .admit_request(request(2, 4), state(), 0)
            .map_err(|refused| refused.into_parts().0),
        Err(SchedulerError::DuplicateRequest(
            RequestId::new(2).expect("request ID")
        ))
    );
    let work = scheduler.schedule().expect("schedule");
    assert_eq!(work.len(), 2);
    let submission = BackendSubmissionId::new(9).expect("submission");
    scheduler
        .begin_submission(work[0], submission)
        .expect("begin");
    assert_eq!(
        scheduler.begin_submission(work[1], submission),
        Err(SchedulerError::DuplicateSubmission(submission))
    );
    assert_eq!(
        scheduler.begin_submission(work[0], BackendSubmissionId::new(10).expect("submission")),
        Err(SchedulerError::StaleWork)
    );
    assert_eq!(
        scheduler.prepare_submission(&[work[1], work[1]]),
        Err(SchedulerError::StaleWork)
    );
    assert_eq!(scheduler.counts().runnable(), 1);
    let unknown = BackendSubmissionId::new(77).expect("submission");
    let mut states = vec![state()];
    assert_eq!(
        scheduler.complete_submission(unknown, &event(work[0]), &mut states),
        Err(SchedulerError::UnknownSubmission(unknown))
    );
    assert_eq!(
        scheduler.complete_submission(submission, &event(work[1]), &mut states),
        Err(SchedulerError::CompletionRequestMismatch)
    );
    assert_eq!(states.len(), 1);
    assert_eq!(
        scheduler.complete_submission(submission, &event(work[0]), &mut Vec::new()),
        Err(SchedulerError::StateCountMismatch)
    );
    assert_eq!(
        scheduler.finish(RequestId::new(2).expect("request ID")),
        Err(SchedulerError::InvalidLifecycle)
    );
    assert_eq!(
        scheduler.cancel(RequestId::new(5).expect("request ID")),
        Err(SchedulerError::UnknownRequest(
            RequestId::new(5).expect("request ID")
        ))
    );
    scheduler
        .finish(RequestId::new(1).expect("request ID"))
        .expect("finish");
    scheduler
        .fail_submission(submission, vec![state()])
        .expect("fail");
    assert_eq!(scheduler.counts().terminal(), 2);
    let first = scheduler.reclaim_next().expect("finished");
    assert_eq!(first.lifecycle(), RequestLifecycle::Completed);
    let second = scheduler.reclaim_next().expect("failed");
    assert_eq!(second.lifecycle(), RequestLifecycle::Failed);
    assert!(scheduler.slots().is_empty());
}

#[test]
fn refused_submissions_give_states_back() {
    let config = SchedulerConfig::new(2, 1, 4).expect("config");
    let mut scheduler = ServingScheduler::new(policy(2, 8), config);
    for id in 1..=3 {
        scheduler
            .admit_request(request(id, 4), state(), 2)
            .expect("admit");
    }
    let work = scheduler.schedule().expect("schedule");
    let states = scheduler.prepare_submission(&work).expect("prepare");
    assert_eq!(scheduler.counts().prepared(), 2);
    assert_eq!(
        scheduler.fail_prepared(&work, Vec::new()),
        Err(SchedulerError::StateCountMismatch)
    );
    scheduler.fail_prepared(&work, states).expect("fail");
    assert_eq!(scheduler.counts().prepared(), 0);
    assert_eq!(scheduler.counts().terminal(), 2);
    assert_eq!(scheduler.counts().waiting(), 0);
    assert_eq!(scheduler.counts().runnable(), 1);
    assert!(scheduler.terminal_state().is_some());
}
