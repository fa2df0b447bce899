//! What a serving runtime hands to its backend and to its frontend.

use crate::engine::backend::{BackendSubmissionId, ComputeBackend};
use crate::engine::execution::{
    distinct_events, ExecutionEventView, ExecutionPhase, ExecutionSegmentView, TokenInputView,
};
use crate::engine::execution_laws::{
    law_completions_move_state_behind_the_segment, law_matching_completions,
};
use crate::engine::model::ModelProvider;
use crate::engine::queues::{belongs, fits, kind_of, lemma_moved_all, movable, QueueKind};
use crate::engine::request::{RequestId, RequestSpecView};
use crate::engine::runtime::{
    applied, overruns, positions_after, submitted, CompletedExecutionBatch, ExecutionRuntime,
    RuntimeError, RuntimeStateError, RuntimeSubmission, RuntimeSubmissionView,
};
use crate::engine::scheduler::{
    completed_slot, lemma_distinct_slots, lemma_filled_keeps, lemma_member,
    lemma_no_work_defect, lemma_owned_members, lemma_settled_after_moves, lemma_slot_for,
    repeats_slot, work_slots, ScheduledWork, SchedulerView,
};
use crate::engine::scheduler_laws::{
    law_scheduling_is_work_conserving, law_selected_work_continues_its_request,
    law_selected_work_is_submittable, served, work_tokens,
};
use crate::engine::serving::{RequestLifecycle, RequestProgress, RequestSlotId, SlotView};
use crate::engine::serving_runtime::{
    batch_submitted, completions_polled, driven, law_accepted_completions_apply,
    law_polls_account_for_every_submission, next_polled, settled, GeneratedToken,
    ServingIteration, ServingRuntimeError, ServingView, TokensView,
};
use crate::engine::state::{position_of, StateHandle};
use crate::engine::state_laws::law_commits_move_each_set_to_its_position;
use crate::engine::state_manager::{LogicalStateManager, StateManager};
use crate::engine::transition_laws::law_completions_reach_their_own_requests;
use vstd::prelude::*;

verus! {

/// Whether a segment reads the tokens of a prompt that stand at its own positions.
pub open spec fn reads_prompt(segment: ExecutionSegmentView, prompt: Seq<u32>) -> bool {
    segment.token_input matches Some(TokenInputView::Prompt(tokens)) && {
        &&& segment.state_position + segment.token_count <= prompt.len()
        &&& tokens.len() == segment.token_count
        &&& forall|j: int|
            0 <= j < segment.token_count ==> #[trigger] tokens[j] == prompt[segment.state_position
                + j]
    }
}

/// A prompt chunk hands the backend the tokens of the admitted prompt that stand at its own
/// positions: as many as it counts, from where the request's state stands on.
pub proof fn law_chunks_read_their_own_tokens(view: ServingView, work: ScheduledWork)
    requires
        work.phase is Prefill,
        view.input_defect(work) is None,
    ensures
        view.segment_for(work).token_input matches Some(TokenInputView::Prompt(tokens)) && {
            let prompt = view.tokens.prompts[work.request@];
            &&& work.state_position + work.token_count <= prompt.len()
            &&& tokens.len() == work.token_count
            &&& forall|j: int|
                0 <= j < work.token_count ==> #[trigger] tokens[j] == prompt[work.state_position
                    + j]
        },
{
}

/// A decode hands the backend the one token that was sampled last.
pub proof fn law_decodes_read_the_last_token(view: ServingView, work: ScheduledWork)
    requires
        !(work.phase is Prefill),
        view.input_defect(work) is None,
    ensures
        view.tokens.next.contains_key(work.request@),
        view.segment_for(work).token_input == Some(
            TokenInputView::Decode(view.tokens.next[work.request@]),
        ),
{
}

/// A segment is the work that was selected: the same request, phase, size and position, with
/// the state that the plan asks for. It samples, with the settings of the request, exactly
/// where the work ends in an output token.
pub proof fn law_segments_are_the_selected_work(
    view: ServingView,
    work: Seq<ScheduledWork>,
    i: int,
)
    requires
        0 <= i < work.len(),
    ensures
        view.segments_for(work).len() == work.len(),
        ({
            let segment = view.segments_for(work)[i];
            &&& segment == view.segment_for(work[i])
            &&& segment.request == work[i].request
            &&& segment.phase == work[i].phase
            &&& segment.token_count == work[i].token_count
            &&& segment.state_position == work[i].state_position
            &&& segment.state_requirements == view.plan.state_requirements
            &&& segment.sampling is Some <==> work[i].requests_output
            &&& segment.sampling is Some ==> segment.sampling->Some_0
                == view.scheduler.slots.slot(work[i].slot).request.semantics.sampling
        }),
{
}

/// Work goes without input exactly where its request has no prompt left to read that far, or
/// has no token to decode.
pub proof fn law_missing_input(view: ServingView, work: ScheduledWork)
    ensures
        view.input_defect(work) == Some(ServingRuntimeError::PromptMissing(work.request))
            <==> work.phase is Prefill && !view.tokens.prompts.contains_key(work.request@),
        view.input_defect(work) == Some(ServingRuntimeError::DecodeTokenMissing(work.request))
            <==> !(work.phase is Prefill) && !view.tokens.next.contains_key(work.request@),
        view.input_defect(work) is None <==> if work.phase is Prefill {
            view.tokens.prompts.contains_key(work.request@) && work.state_position
                + work.token_count <= view.tokens.prompts[work.request@].len()
        } else {
            view.tokens.next.contains_key(work.request@)
        },
{
}

/// The first piece of work without input decides why a batch is not submitted; a batch is
/// submitted only where every piece has its input.
pub proof fn law_every_segment_has_its_input(view: ServingView, work: Seq<ScheduledWork>)
    ensures
        view.first_input_defect(work, 0) is None <==> forall|i: int|
            0 <= i < work.len() ==> view.input_defect(#[trigger] work[i]) is None,
        view.first_input_defect(work, 0) is Some ==> exists|i: int|
            0 <= i < work.len() && view.input_defect(#[trigger] work[i])
                == view.first_input_defect(work, 0) && forall|j: int|
                0 <= j < i ==> view.input_defect(#[trigger] work[j]) is None,
{
    lemma_first_input(view, work, 0);
}

proof fn lemma_first_input(view: ServingView, work: Seq<ScheduledWork>, from: int)
    requires
        0 <= from <= work.len(),
    ensures
        view.first_input_defect(work, from) is None <==> forall|i: int|
            from <= i < work.len() ==> view.input_defect(#[trigger] work[i]) is None,
        view.first_input_defect(work, from) is Some ==> exists|i: int|
            from <= i < work.len() && view.input_defect(#[trigger] work[i])
                == view.first_input_defect(work, from) && forall|j: int|
                from <= j < i ==> view.input_defect(#[trigger] work[j]) is None,
    decreases work.len() - from,
{
    if from < work.len() {
        if view.input_defect(work[from]) is None {
            lemma_first_input(view, work, from + 1);
            if view.first_input_defect(work, from) is Some {
                let i = choose|i: int|
                    from + 1 <= i < work.len() && view.input_defect(#[trigger] work[i])
                        == view.first_input_defect(work, from + 1) && forall|j: int|
                        from + 1 <= j < i ==> view.input_defect(#[trigger] work[j]) is None;
                assert(view.input_defect(work[i]) == view.first_input_defect(work, from));
            }
        } else {
            assert(view.input_defect(work[from]) == view.first_input_defect(work, from));
        }
    }
}

/// What the first `n` chunks of a request handed to the backend, one after the other; chunk
/// `i` was submitted by a runtime as `views[i]`.
pub open spec fn handed_over(views: Seq<ServingView>, chunks: Seq<ScheduledWork>, n: int) -> Seq<
    u32,
>
    decreases n,
{
    if n <= 0 {
        Seq::empty()
    } else {
        handed_over(views, chunks, n - 1) + match views[n - 1].segment_for(
            chunks[n - 1],
        ).token_input {
            Some(TokenInputView::Prompt(tokens)) => tokens,
            _ => Seq::empty(),
        }
    }
}

/// The whole prompt reaches the backend, each token once and in order: where the chunks of a
/// request follow on each other from the first position to the end of its prompt, what they
/// hand over, put together, is the prompt that was admitted.
pub proof fn law_chunks_make_up_the_prompt(
    views: Seq<ServingView>,
    chunks: Seq<ScheduledWork>,
    request: RequestId,
    prompt: Seq<u32>,
)
    requires
        views.len() == chunks.len(),
        chunks.len() > 0,
        forall|i: int|
            0 <= i < chunks.len() ==> {
                &&& (#[trigger] chunks[i]).request == request
                &&& chunks[i].phase is Prefill
                &&& views[i].input_defect(chunks[i]) is None
                &&& views[i].tokens.prompts[request@] == prompt
            },
        chunks[0].state_position == 0,
        forall|i: int, j: int|
            0 <= i && j == i + 1 && j < chunks.len() ==> (#[trigger] chunks[j]).state_position == (
            #[trigger] chunks[i]).state_position + chunks[i].token_count,
        chunks.last().state_position + chunks.last().token_count == prompt.len(),
    ensures
        handed_over(views, chunks, chunks.len() as int) == prompt,
{
    lemma_handed_over(views, chunks, request, prompt, chunks.len() as int);
    assert(prompt.take(prompt.len() as int) =~= prompt);
}

proof fn lemma_handed_over(
    views: Seq<ServingView>,
    chunks: Seq<ScheduledWork>,
    request: RequestId,
    prompt: Seq<u32>,
    n: int,
)
    requires
        views.len() == chunks.len(),
        0 < n <= chunks.len(),
        forall|i: int|
            0 <= i < chunks.len() ==> {
                &&& (#[trigger] chunks[i]).request == request
                &&& chunks[i].phase is Prefill
                &&& views[i].input_defect(chunks[i]) is None
                &&& views[i].tokens.prompts[request@] == prompt
            },
        chunks[0].state_position == 0,
        forall|i: int, j: int|
            0 <= i && j == i + 1 && j < chunks.len() ==> (#[trigger] chunks[j]).state_position == (
            #[trigger] chunks[i]).state_position + chunks[i].token_count,
    ensures
        handed_over(views, chunks, n) == prompt.take(
            chunks[n - 1].state_position + chunks[n - 1].token_count,
        ),
    decreases n,
{
    let chunk = chunks[n - 1];
    assert(views[n - 1].input_defect(chunk) is None);
    if n > 1 {
        lemma_handed_over(views, chunks, request, prompt, n - 1);
        assert(chunk.state_position == chunks[n - 2].state_position + chunks[n - 2].token_count);
    } else {
        assert(handed_over(views, chunks, 0) =~= Seq::<u32>::empty());
    }
    assert(handed_over(views, chunks, n) =~= prompt.take(
        chunk.state_position + chunk.token_count,
    ));
}

/// Admission keeps the prompt as it was given, and every other request's.
pub proof fn law_admission_keeps_the_prompt(
    view: ServingView,
    request: RequestSpecView,
    state: Seq<StateHandle>,
    prompt: Seq<u32>,
    other: u64,
)
    ensures
        ({
            let after = view.admitted(request, state, prompt);
            &&& after.tokens.prompts.contains_key(request.id@)
            &&& after.tokens.prompts[request.id@] == prompt
            &&& other != request.id@ ==> after.tokens.prompts.contains_key(other)
                == view.tokens.prompts.contains_key(other) && (view.tokens.prompts.contains_key(
                other,
            ) ==> after.tokens.prompts[other] == view.tokens.prompts[other])
            &&& after.tokens.next == view.tokens.next
            &&& after.tokens.generated == view.tokens.generated
            &&& after.plan == view.plan
            &&& after.submissions == view.submissions
            &&& prompt.len() <= u32::MAX ==> exists|prompt_tokens: u32|
                prompt_tokens == prompt.len() && after.scheduler
                    == #[trigger] view.scheduler.admitted(request, state, prompt_tokens)
        }),
{
    if prompt.len() <= u32::MAX {
        let prompt_tokens = prompt.len() as u32;
        assert(view.admitted(request, state, prompt).scheduler == view.scheduler.admitted(
            request,
            state,
            prompt_tokens,
        ));
    }
}

/// Only an empty prompt, or one that cannot be counted, is refused.
pub proof fn law_refused_prompts(prompt: Seq<u32>)
    ensures
        ServingView::prompt_refused(prompt) <==> !(0 < prompt.len() <= u32::MAX),
{
}

/// What a completed step does to the tokens that are kept: the prompt stays, unless the step
/// ended it; a sampled token goes to the frontend and, where the request goes on, into its
/// next decode; nothing else changes, and nothing of another request.
pub proof fn law_steps_move_their_own_tokens(
    tokens: TokensView,
    slot: SlotView,
    event: ExecutionEventView,
    other: u64,
)
    ensures
        ({
            let after = tokens.after_event(slot, event);
            let request = event.request@;
            let ended = event.phase is Prefill && slot.progress.prompt_processed
                == slot.progress.prompt_tokens;
            let delivered = event.output_token is Some && (slot.lifecycle is Runnable
                || slot.lifecycle is Completed);
            &&& ended ==> !after.prompts.contains_key(request)
            &&& !ended ==> after.prompts == tokens.prompts
            &&& other != request ==> after.prompts.contains_key(other)
                == tokens.prompts.contains_key(other) && (tokens.prompts.contains_key(other)
                ==> after.prompts[other] == tokens.prompts[other])
            &&& event.output_token is Some && slot.lifecycle is Runnable
                ==> after.next.contains_key(request) && after.next[request]
                == event.output_token->Some_0
            &&& !(event.output_token is Some && slot.lifecycle is Runnable) ==> after.next
                == tokens.next
            &&& other != request ==> after.next.contains_key(other) == tokens.next.contains_key(
                other,
            ) && (tokens.next.contains_key(other) ==> after.next[other] == tokens.next[other])
            &&& delivered ==> {
                &&& after.generated.len() == tokens.generated.len() + 1
                &&& after.generated.drop_last() == tokens.generated
                &&& after.generated.last().request == event.request
                &&& after.generated.last().token == event.output_token->Some_0
            }
            &&& !delivered ==> after.generated == tokens.generated
        }),
{
    assert(tokens.generated.push(
        GeneratedToken { request: event.request, token: event.output_token->Some_0 },
    ).drop_last() =~= tokens.generated);
}

/// Whether an event delivers a token: it sampled one, and its request goes on or has just
/// ended by it.
pub open spec fn delivers(scheduler: SchedulerView, event: ExecutionEventView) -> bool {
    let lifecycle = scheduler.slots.slot(scheduler.slot_for(event.request)).lifecycle;
    event.output_token is Some && (lifecycle is Runnable || lifecycle is Completed)
}

/// The output of a completion is delivered event by event: its tokens come behind those that
/// wait already, in the order of the events, one for each event that delivers and none
/// besides.
pub proof fn law_output_is_delivered_in_order(
    tokens: TokensView,
    scheduler: SchedulerView,
    events: Seq<ExecutionEventView>,
)
    ensures
        ({
            let after = tokens.after_events(scheduler, events, events.len() as int);
            let outputs = events.filter(|event: ExecutionEventView| delivers(scheduler, event));
            &&& after.generated.len() == tokens.generated.len() + outputs.len()
            &&& forall|i: int|
                0 <= i < tokens.generated.len() ==> #[trigger] after.generated[i]
                    == tokens.generated[i]
            &&& forall|i: int|
                0 <= i < outputs.len() ==> {
                    let given = #[trigger] after.generated[tokens.generated.len() + i];
                    &&& given.request == outputs[i].request
                    &&& given.token == outputs[i].output_token->Some_0
                }
        }),
{
    lemma_delivered(tokens, scheduler, events, events.len() as int);
    assert(events.take(events.len() as int) =~= events);
}

proof fn lemma_delivered(
    tokens: TokensView,
    scheduler: SchedulerView,
    events: Seq<ExecutionEventView>,
    n: int,
)
    requires
        0 <= n <= events.len(),
    ensures
        ({
            let after = tokens.after_events(scheduler, events, n);
            let outputs = events.take(n).filter(
                |event: ExecutionEventView| delivers(scheduler, event),
            );
            &&& after.generated.len() == tokens.generated.len() + outputs.len()
            &&& forall|i: int|
                0 <= i < tokens.generated.len() ==> #[trigger] after.generated[i]
                    == tokens.generated[i]
            &&& forall|i: int|
                0 <= i < outputs.len() ==> {
                    let given = #[trigger] after.generated[tokens.generated.len() + i];
                    &&& given.request == outputs[i].request
                    &&& given.token == outputs[i].output_token->Some_0
                }
        }),
    decreases n,
{
    reveal(Seq::filter);
    if n > 0 {
        lemma_delivered(tokens, scheduler, events, n - 1);
        assert(events.take(n).drop_last() =~= events.take(n - 1));
        assert(events.take(n).last() == events[n - 1]);
    } else {
        assert(events.take(0) =~= Seq::<ExecutionEventView>::empty());
    }
}

/// After a completion, each of its requests that goes on decodes the token that its own event
/// sampled; requests outside of it decode what they would have.
pub proof fn law_completions_feed_their_own_requests(
    tokens: TokensView,
    scheduler: SchedulerView,
    events: Seq<ExecutionEventView>,
    i: int,
)
    requires
        0 <= i < events.len(),
        forall|a: int, b: int|
            0 <= a < b < events.len() ==> (#[trigger] events[a]).request@ != (
            #[trigger] events[b]).request@,
    ensures
        ({
            let after = tokens.after_events(scheduler, events, events.len() as int);
            let request = events[i].request@;
            let slot = scheduler.slots.slot(scheduler.slot_for(events[i].request));
            &&& events[i].output_token is Some && slot.lifecycle is Runnable
                ==> after.next.contains_key(request) && after.next[request]
                == events[i].output_token->Some_0
            &&& events[i].phase is Prefill && slot.progress.prompt_processed
                == slot.progress.prompt_tokens ==> !after.prompts.contains_key(request)
            &&& !(events[i].phase is Prefill && slot.progress.prompt_processed
                == slot.progress.prompt_tokens) && tokens.prompts.contains_key(request)
                ==> after.prompts.contains_key(request) && after.prompts[request]
                == tokens.prompts[request]
        }),
{
    lemma_fed(tokens, scheduler, events, events.len() as int, i);
}

/// A completion leaves the prompts and the next tokens of all other requests as they are.
pub proof fn law_completions_spare_other_requests(
    tokens: TokensView,
    scheduler: SchedulerView,
    events: Seq<ExecutionEventView>,
    n: int,
    other: u64,
)
    requires
        0 <= n <= events.len(),
        forall|a: int| 0 <= a < n ==> (#[trigger] events[a]).request@ != other,
    ensures
        ({
            let after = tokens.after_events(scheduler, events, n);
            &&& after.prompts.contains_key(other) == tokens.prompts.contains_key(other)
            &&& tokens.prompts.contains_key(other) ==> after.prompts[other]
                == tokens.prompts[other]
            &&& after.next.contains_key(other) == tokens.next.contains_key(other)
            &&& tokens.next.contains_key(other) ==> after.next[other] == tokens.next[other]
        }),
    decreases n,
{
    if n > 0 {
        law_completions_spare_other_requests(tokens, scheduler, events, n - 1, other);
        assert(events[n - 1].request@ != other);
    }
}

proof fn lemma_fed(
    tokens: TokensView,
    scheduler: SchedulerView,
    events: Seq<ExecutionEventView>,
    n: int,
    i: int,
)
    requires
        0 <= i < n <= events.len(),
        forall|a: int, b: int|
            0 <= a < b < events.len() ==> (#[trigger] events[a]).request@ != (
            #[trigger] events[b]).request@,
    ensures
        ({
            let after = tokens.after_events(scheduler, events, n);
            let request = events[i].request@;
            let slot = scheduler.slots.slot(scheduler.slot_for(events[i].request));
            &&& events[i].output_token is Some && slot.lifecycle is Runnable
                ==> after.next.contains_key(request) && after.next[request]
                == events[i].output_token->Some_0
            &&& events[i].phase is Prefill && slot.progress.prompt_processed
                == slot.progress.prompt_tokens ==> !after.prompts.contains_key(request)
            &&& !(events[i].phase is Prefill && slot.progress.prompt_processed
                == slot.progress.prompt_tokens) && tokens.prompts.contains_key(request)
                ==> after.prompts.contains_key(request) && after.prompts[request]
                == tokens.prompts[request]
        }),
    decreases n,
{
    if i < n - 1 {
        lemma_fed(tokens, scheduler, events, n - 1, i);
        assert(events[i].request@ != events[n - 1].request@);
    } else {
        law_completions_spare_other_requests(
            tokens,
            scheduler,
            events,
            n - 1,
            events[i].request@,
        );
    }
}

/// Committed work is counted once, and only that: prompt tokens as processed and never past
/// the prompt, decoded tokens both as read back and as generated, other work not at all.
pub proof fn law_progress_counts_committed_work(
    progress: RequestProgress,
    phase: ExecutionPhase,
    token_count: u32,
)
    ensures
        progress.recorded(phase, token_count) is None <==> {
            ||| phase is Prefill && progress.prompt_processed + token_count
                > progress.prompt_tokens
            ||| phase is Decode && (progress.generated_tokens + token_count > u32::MAX
                || progress.decode_processed + token_count > u32::MAX)
        },
        progress.recorded(phase, token_count) matches Some(after) ==> {
            &&& after.prompt_tokens == progress.prompt_tokens
            &&& after.prompt_processed == progress.prompt_processed + if phase is Prefill {
                token_count as int
            } else {
                0
            }
            &&& after.decode_processed == progress.decode_processed + if phase is Decode {
                token_count as int
            } else {
                0
            }
            &&& after.generated_tokens == progress.generated_tokens + if phase is Decode {
                token_count as int
            } else {
                0
            }
        },
{
}

/// An output token counts as one generated token.
pub proof fn law_output_counts_one_token(progress: RequestProgress)
    ensures
        progress.with_output() is None <==> progress.generated_tokens == u32::MAX,
        progress.with_output() matches Some(after) ==> {
            &&& after.generated_tokens == progress.generated_tokens + 1
            &&& after.prompt_tokens == progress.prompt_tokens
            &&& after.prompt_processed == progress.prompt_processed
            &&& after.decode_processed == progress.decode_processed
        },
{
}

/// Whether a segment is what selected work asks for: the same request, phase, size and
/// position, with the input that the runtime keeps for it.
pub open spec fn carries_out(
    view: ServingView,
    work: ScheduledWork,
    segment: ExecutionSegmentView,
) -> bool {
    &&& segment.request == work.request
    &&& segment.phase == work.phase
    &&& segment.token_count == work.token_count
    &&& segment.state_position == work.state_position
    &&& segment.sampling is Some <==> work.requests_output
    &&& work.phase is Prefill ==> reads_prompt(segment, view.tokens.prompts[work.request@])
    &&& !(work.phase is Prefill) ==> segment.token_input == Some(
        TokenInputView::Decode(view.tokens.next[work.request@]),
    )
}

/// What submitting the next batch hands over: the work that one scheduling iteration selects,
/// one segment for each piece of it, with that request's own input and state. Where no work
/// is selected, nothing is runnable, and nothing changes.
pub proof fn law_submissions_carry_out_the_selected_work<
    P: ModelProvider,
    B: ComputeBackend,
    S: StateManager,
>(
    runtime: ExecutionRuntime<P, B, S>,
    before: ServingView,
    runtime_after: ExecutionRuntime<P, B, S>,
    after: ServingView,
    r: Result<Option<BackendSubmissionId>, ServingRuntimeError>,
)
    requires
        before.wf(),
        before.scheduler.policy.max_batch_size > 0,
        before.scheduler.policy.max_batch_tokens > 0,
        batch_submitted(runtime, before, runtime_after, after, r),
    ensures
        r == Ok::<Option<BackendSubmissionId>, ServingRuntimeError>(None) ==> {
            &&& before.scheduler.queues.runnable.len() == 0
            &&& after == before
            &&& runtime_after == runtime
        },
        r is Ok && r->Ok_0 is Some ==> before.scheduler.planned() is Some,
        r matches Ok(Some(id)) ==> exists|
            segments: Seq<ExecutionSegmentView>,
            states: Seq<Seq<StateHandle>>,
            outcome: Result<RuntimeSubmission, RuntimeStateError>,
        |
            {
                let work = before.scheduler.planned()->Some_0;
                &&& work.len() > 0
                &&& #[trigger] submitted(
                    runtime,
                    before.plan,
                    segments,
                    states,
                    runtime_after,
                    outcome,
                )
                &&& outcome is Ok
                &&& outcome->Ok_0@.backend_submission == id
                &&& segments.len() == work.len()
                &&& states.len() == work.len()
                &&& forall|i: int|
                    0 <= i < work.len() ==> {
                        &&& carries_out(before, #[trigger] work[i], segments[i])
                        &&& Some(states[i]) == before.scheduler.slots.slot(work[i].slot).state
                    }
                &&& after.submissions == before.submissions.push(outcome->Ok_0@)
                &&& after.tokens == before.tokens
                &&& after.plan == before.plan
                &&& forall|i: int|
                    0 <= i < work.len() ==> {
                        let slot = after.scheduler.slots.slot((#[trigger] work[i]).slot);
                        &&& after.scheduler.slots.resolves(work[i].slot)
                        &&& slot.lifecycle == RequestLifecycle::InFlight(id)
                        &&& slot.state is None
                        &&& slot.progress == before.scheduler.slots.slot(work[i].slot).progress
                    }
            },
{
    match before.scheduler.planned() {
        None => {},
        Some(work) => {
            if work.len() == 0 {
                law_scheduling_is_work_conserving(before.scheduler);
                assert(work_tokens(work) == 0);
                if before.scheduler.queues.runnable.len() > 0 {
                    assert(served(work, before.scheduler.queues.runnable[0]));
                }
            } else if before.first_input_defect(work, 0) is None {
                law_selected_work_is_submittable(before.scheduler);
                lemma_first_input(before, work, 0);
                if let Ok(Some(id)) = r {
                    let (outcome, answer) = choose|
                        outcome: Result<RuntimeSubmission, RuntimeStateError>,
                        answer: Result<BackendSubmissionId, ServingRuntimeError>,
                    |
                        {
                            &&& submitted(
                                runtime,
                                before.plan,
                                before.segments_for(work),
                                before.states_of(work),
                                runtime_after,
                                outcome,
                            )
                            &&& #[trigger] settled(
                                before.prepared(work),
                                work,
                                outcome,
                                after,
                                answer,
                            )
                            &&& match answer {
                                Ok(id) => r == Ok::<
                                    Option<BackendSubmissionId>,
                                    ServingRuntimeError,
                                >(Some(id)),
                                Err(error) => r == Err::<
                                    Option<BackendSubmissionId>,
                                    ServingRuntimeError,
                                >(error),
                            }
                        };
                    let segments = before.segments_for(work);
                    let states = before.states_of(work);
                    assert(answer == Ok::<BackendSubmissionId, ServingRuntimeError>(id));
                    lemma_flying(before, work, outcome->Ok_0@);
                    assert forall|i: int| 0 <= i < work.len() implies {
                        &&& carries_out(before, #[trigger] work[i], segments[i])
                        &&& Some(states[i]) == before.scheduler.slots.slot(work[i].slot).state
                    } by {
                        lemma_no_work_defect(before.scheduler, work, 0);
                        assert(before.scheduler.work_defect(work[i]) is None);
                        assert(before.scheduler.queues.of(QueueKind::Runnable).contains(
                            work[i].slot,
                        ));
                        lemma_member(before.scheduler, QueueKind::Runnable, work[i].slot);
                        assert(before.input_defect(work[i]) is None);
                    }
                    assert(after.submissions == before.submissions.push(outcome->Ok_0@));
                }
            }
        },
    }
}

/// Where submittable work was taken by the backend, its requests are in flight.
proof fn lemma_flying(
    before: ServingView,
    work: Seq<ScheduledWork>,
    submission: RuntimeSubmissionView,
)
    requires
        before.wf(),
        before.scheduler.first_work_defect(work, 0) is None,
    ensures
        ({
            let after = before.prepared(work).submitted(work, submission);
            forall|i: int|
                0 <= i < work.len() ==> {
                    let slot = after.scheduler.slots.slot((#[trigger] work[i]).slot);
                    &&& after.scheduler.slots.resolves(work[i].slot)
                    &&& slot.lifecycle == RequestLifecycle::InFlight(submission.backend_submission)
                    &&& slot.state is None
                    &&& slot.progress == before.scheduler.slots.slot(work[i].slot).progress
                }
        }),
{
    let view = before.scheduler;
    let ids = work_slots(work);
    let lent = view.lent(ids);
    lemma_no_work_defect(view, work, 0);
    assert forall|k: int| 0 <= k < work.len() implies !#[trigger] repeats_slot(work, k) by {
        assert(view.work_defect(work[k]) is None);
    }
    lemma_distinct_slots(work);
    assert forall|k: int|
        #![trigger ids[k]]
        #![trigger lent[k]]
        0 <= k < ids.len() implies {
        &&& view.slots.resolves(ids[k])
        &&& kind_of(view.slots.slot(ids[k]).lifecycle) is Runnable
        &&& lent[k].id == ids[k]
        &&& lent[k].request == view.slots.slot(ids[k]).request
        &&& fits(lent[k])
    } by {
        assert(view.work_defect(work[k]) is None);
        assert(view.queues.of(QueueKind::Runnable).contains(ids[k]));
        lemma_member(view, QueueKind::Runnable, ids[k]);
    }
    assert(movable(view.slots, ids, lent));
    lemma_moved_all(view.slots, view.queues, ids, lent, ids.len());
    let prepared = view.moved_all(ids, lent);
    let flying = prepared.flying(ids, submission.backend_submission);
    assert forall|k: int|
        #![trigger ids[k]]
        #![trigger flying[k]]
        0 <= k < ids.len() implies {
        &&& prepared.slots.resolves(ids[k])
        &&& prepared.slots.slot(ids[k]) == lent[k]
        &&& flying[k].id == ids[k]
        &&& flying[k].request == prepared.slots.slot(ids[k]).request
        &&& fits(flying[k])
    } by {
        assert(view.slots.resolves(ids[k]));
        assert(prepared.slots.resolves(ids[k]));
        assert(prepared.slots.slot(ids[k]) == lent[k]);
    }
    assert(movable(prepared.slots, ids, flying));
    lemma_moved_all(prepared.slots, prepared.queues, ids, flying, ids.len());
    let after = before.prepared(work).submitted(work, submission);
    assert forall|i: int| 0 <= i < work.len() implies {
        let slot = after.scheduler.slots.slot((#[trigger] work[i]).slot);
        &&& after.scheduler.slots.resolves(work[i].slot)
        &&& slot.lifecycle == RequestLifecycle::InFlight(submission.backend_submission)
        &&& slot.state is None
        &&& slot.progress == before.scheduler.slots.slot(work[i].slot).progress
    } by {
        assert(ids[i] == work[i].slot);
        assert(prepared.slots.resolves(ids[i]));
        assert(after.scheduler.slots.slot(ids[i]) == flying[i]);
        assert(prepared.slots.slot(ids[i]) == lent[i]);
    }
}

/// A completed submission is no longer live and no other one changes; each of its requests
/// becomes what its own event and state make of it, and the output is delivered for the
/// requests as they are then.
pub proof fn law_completed_submissions(
    view: ServingView,
    k: int,
    events: Seq<ExecutionEventView>,
    states: Seq<Seq<StateHandle>>,
    i: int,
    other: RequestSlotId,
)
    requires
        view.wf(),
        0 <= k < view.submissions.len(),
        view.scheduler.completion_defect(
            view.submissions[k].backend_submission,
            events,
            states.len(),
        ) is None,
        0 <= i < events.len(),
    ensures
        ({
            let slot = view.scheduler.slots.slot(other);
            let id = view.scheduler.owned(view.submissions[k].backend_submission)[i];
            let after = view.completed(k, events, states);
            &&& after.submissions == view.submissions.remove(k)
            &&& after.plan == view.plan
            &&& after.tokens == view.tokens.after_events(
                after.scheduler,
                events,
                events.len() as int,
            )
            &&& after.scheduler.slots.slot(id) == completed_slot(
                view.scheduler.slots.slot(id),
                events[i],
                states[i],
            )
            &&& view.scheduler.slots.slot(id).request.id == events[i].request
            &&& after.scheduler.slots.resolves(id)
            &&& after.scheduler.wf()
            &&& view.scheduler.slots.resolves(other) && slot.lifecycle.owner() != Some(
                view.submissions[k].backend_submission,
            ) && !(slot.lifecycle is Waiting) ==> after.scheduler.slots.slot(other) == slot
        }),
{
    law_completions_reach_their_own_requests(
        view.scheduler,
        view.submissions[k].backend_submission,
        events,
        states,
        i,
        other,
    );
}

/// A submission that failed is no longer live and no other one changes; each of its requests
/// has failed and holds its own state again, with its progress as it was, and nothing is
/// delivered.
pub proof fn law_failed_submissions(view: ServingView, k: int, i: int)
    requires
        view.wf(),
        0 <= k < view.submissions.len(),
        0 <= i < view.submissions[k].batch.len(),
    ensures
        ({
            let ids = view.scheduler.owned(view.submissions[k].backend_submission);
            let after = view.failed(k);
            let slot = view.scheduler.slots.slot(ids[i]);
            &&& ids.len() == view.submissions[k].batch.len()
            &&& after.submissions == view.submissions.remove(k)
            &&& after.tokens == view.tokens
            &&& after.plan == view.plan
            &&& after.scheduler.slots.resolves(ids[i])
            &&& after.scheduler.slots.slot(ids[i]).lifecycle is Failed
            &&& after.scheduler.slots.slot(ids[i]).state == Some(
                view.submissions[k].states->Some_0[i],
            )
            &&& after.scheduler.slots.slot(ids[i]).progress == slot.progress
            &&& after.scheduler.slots.slot(ids[i]).request == slot.request
        }),
{
    let submission = view.submissions[k].backend_submission;
    let ids = view.scheduler.owned(submission);
    let states = view.submissions[k].states->Some_0;
    let targets = view.scheduler.failed(ids, states);
    lemma_owned_members(view.scheduler, submission);
    assert forall|m: int|
        #![trigger ids[m]]
        #![trigger targets[m]]
        0 <= m < ids.len() implies {
        &&& view.scheduler.slots.resolves(ids[m])
        &&& kind_of(view.scheduler.slots.slot(ids[m]).lifecycle) is InFlight
        &&& targets[m].id == ids[m]
        &&& targets[m].request == view.scheduler.slots.slot(ids[m]).request
        &&& fits(targets[m])
    } by {
        let id = view.scheduler.owned(submission)[m];
        assert(belongs(view.scheduler.slots, id, QueueKind::InFlight));
    }
    assert(movable(view.scheduler.slots, ids, targets));
    lemma_moved_all(
        view.scheduler.slots,
        view.scheduler.queues,
        ids,
        targets,
        ids.len(),
    );
    lemma_settled_after_moves(view.scheduler, ids, targets);
    let moved = view.scheduler.moved_all(ids, targets);
    assert(view.scheduler.slots.resolves(ids[i]));
    assert(moved.slots.resolves(ids[i]));
    assert(moved.slots.slot(ids[i]) == targets[i]);
    lemma_filled_keeps(moved, ids[i]);
}

/// What a poll makes of a live submission: pending, nothing changes; completed, exactly what
/// was completed is applied; failed, the submission ends with the states that it has left.
pub proof fn law_polls_apply_their_answer<P: ModelProvider, B: ComputeBackend, S: StateManager>(
    runtime: ExecutionRuntime<P, B, S>,
    before: ServingView,
    k: int,
    left: RuntimeSubmissionView,
    outcome: Result<Option<CompletedExecutionBatch>, RuntimeError>,
    runtime_after: ExecutionRuntime<P, B, S>,
    after: ServingView,
    r: Result<bool, ServingRuntimeError>,
)
    requires
        next_polled(runtime, before, k, left, outcome, runtime_after, after, r),
    ensures
        r == Ok::<bool, ServingRuntimeError>(false) <==> outcome == Ok::<
            Option<CompletedExecutionBatch>,
            RuntimeError,
        >(None),
        r == Ok::<bool, ServingRuntimeError>(true) <==> outcome is Ok && outcome->Ok_0 is Some,
        outcome matches Err(error) ==> r == Err::<bool, ServingRuntimeError>(
            ServingRuntimeError::Runtime(error),
        ),
        r == Ok::<bool, ServingRuntimeError>(false) ==> after == before,
        r == Ok::<bool, ServingRuntimeError>(true) ==> after.submissions
            == before.submissions.remove(k) && after.tokens.generated.len()
            >= before.tokens.generated.len(),
        r is Err ==> after.submissions.len() == before.submissions.len() - 1 && after.tokens
            == before.tokens,
{
    if let Ok(Some(batch)) = outcome {
        lemma_delivered(
            before.tokens,
            after.scheduler,
            batch.events(),
            batch.events().len() as int,
        );
    }
}

/// One turn of the serving loop asks for every live submission first and submits the next
/// batch then: what it reports as completed is no longer live, and what it reports as
/// submitted is live last.
pub proof fn law_turns_poll_and_submit<P: ModelProvider, B: ComputeBackend, S: StateManager>(
    runtime: ExecutionRuntime<P, B, S>,
    before: ServingView,
    runtime_after: ExecutionRuntime<P, B, S>,
    after: ServingView,
    iteration: ServingIteration,
)
    requires
        driven(runtime, before, runtime_after, after, Ok(iteration)),
    ensures
        iteration.submitted is None ==> after.submissions.len() + iteration.completed_batches
            == before.submissions.len(),
        iteration.submitted matches Some(id) ==> {
            &&& after.submissions.len() + iteration.completed_batches == before.submissions.len()
                + 1
            &&& after.submissions.last().backend_submission == id
        },
{
    let (middle, view, first) = choose|
        middle: ExecutionRuntime<P, B, S>,
        view: ServingView,
        first: Result<usize, ServingRuntimeError>,
    | #[trigger]
        completions_polled(runtime, before, middle, view, first) && match first {
            Err(error) => false,
            Ok(completed_batches) => exists|
                second: Result<Option<BackendSubmissionId>, ServingRuntimeError>,
            | #[trigger]
                batch_submitted(middle, view, runtime_after, after, second) && match second {
                    Ok(submitted) => iteration == (ServingIteration {
                        completed_batches,
                        submitted,
                    }),
                    Err(error) => false,
                },
        };
    law_polls_account_for_every_submission(runtime, before, middle, view, first->Ok_0);
    let second = Ok::<Option<BackendSubmissionId>, ServingRuntimeError>(iteration.submitted);
    assert(batch_submitted(middle, view, runtime_after, after, second));
}

/// A reclaimed request takes its prompt and its next token with it, and nothing of another.
pub proof fn law_reclaimed_requests_leave_no_input(tokens: TokensView, request: u64, other: u64)
    ensures
        !tokens.without(request).prompts.contains_key(request),
        !tokens.without(request).next.contains_key(request),
        other != request ==> {
            let left = tokens.without(request);
            &&& left.prompts.contains_key(other) == tokens.prompts.contains_key(other)
            &&& left.next.contains_key(other) == tokens.next.contains_key(other)
            &&& tokens.prompts.contains_key(other) ==> left.prompts[other] == tokens.prompts[other]
            &&& tokens.next.contains_key(other) ==> left.next[other] == tokens.next[other]
        },
{
}

/// A submission becomes live exactly where the backend took it under an identity that nothing
/// else has: neither a live submission nor a request in flight. Otherwise its identity, or the
/// runtime's refusal, is why it does not.
pub proof fn law_live_submissions_have_their_own_identity(
    before: ServingView,
    work: Seq<ScheduledWork>,
    outcome: Result<RuntimeSubmission, RuntimeStateError>,
    after: ServingView,
    r: Result<BackendSubmissionId, ServingRuntimeError>,
)
    requires
        settled(before, work, outcome, after, r),
    ensures
        ({
            let id = outcome->Ok_0@.backend_submission;
            let used = exists|k: int|
                0 <= k < before.submissions.len() && (
                #[trigger] before.submissions[k]).backend_submission == id;
            &&& r is Ok <==> outcome is Ok && !used && before.scheduler.owned(id).len() == 0
            &&& r is Ok ==> r->Ok_0 == id && after.submissions == before.submissions.push(
                outcome->Ok_0@,
            )
            &&& r is Err ==> after.submissions == before.submissions
            &&& outcome is Ok && used ==> r == Err::<BackendSubmissionId, ServingRuntimeError>(
                ServingRuntimeError::SubmissionCollision(id),
            )
            &&& outcome matches Err(refused) ==> r == Err::<
                BackendSubmissionId,
                ServingRuntimeError,
            >(ServingRuntimeError::Runtime(refused.reason()))
        }),
        after.tokens == before.tokens,
        after.plan == before.plan,
{
}

/// A chunk is followed by the next one of the same prompt: once a chunk has completed, the
/// next work of its request starts at the position behind it, and where that is a chunk again
/// it reads the same prompt.
pub proof fn law_next_chunks_read_on(
    manager: LogicalStateManager,
    view: ServingView,
    k: int,
    events: Seq<ExecutionEventView>,
    manager_after: LogicalStateManager,
    left: RuntimeSubmissionView,
    completed: CompletedExecutionBatch,
    i: int,
    j: int,
)
    requires
        view.wf(),
        0 <= k < view.submissions.len(),
        applied(manager, view.submissions[k], events, manager_after, left, Ok(completed)),
        view.submissions[k].next_positions == positions_after(view.submissions[k].batch),
        !overruns(view.submissions[k].batch),
        distinct_events(events),
        0 <= i < events.len(),
        view.submissions[k].states->Some_0[i].len() > 0,
        events[i].phase is Prefill,
        events[i].output_token is None,
        ({
            let id = view.scheduler.owned(view.submissions[k].backend_submission)[i];
            let after = view.completed(k, events, completed.committed());
            &&& view.scheduler.slots.slot(id).lifecycle is InFlight
            &&& after.scheduler.planned() is Some
            &&& 0 <= j < after.scheduler.planned()->Some_0.len()
            &&& after.scheduler.planned()->Some_0[j].slot == id
        }),
    ensures
        ({
            let after = view.completed(k, events, completed.committed());
            let next = after.scheduler.planned()->Some_0[j];
            let segment = view.submissions[k].batch[i];
            let request = events[i].request@;
            &&& next.request == segment.request
            &&& next.state_position == segment.state_position + segment.token_count
            &&& next.phase is Prefill && view.tokens.prompts.contains_key(request)
                ==> after.tokens.prompts.contains_key(request) && after.tokens.prompts[request]
                == view.tokens.prompts[request]
        }),
{
    let submission = view.submissions[k];
    let states = submission.states->Some_0;
    let committed = completed.committed();
    law_completions_move_state_behind_the_segment(
        manager,
        submission,
        events,
        manager_after,
        left,
        Ok(completed),
        i,
        0,
    );
    law_commits_move_each_set_to_its_position(
        manager,
        states,
        submission.next_positions,
        manager_after,
        committed,
        Ok(()),
        i,
        0,
    );
    law_matching_completions(submission.batch, events, submission.policy_version);
    assert(events[i].request == submission.batch[i].request);
    law_accepted_completions_apply(view, k, events, committed);
    let id = view.scheduler.owned(submission.backend_submission)[i];
    law_completed_submissions(view, k, events, committed, i, id);
    let after = view.completed(k, events, committed);
    law_selected_work_continues_its_request(after.scheduler, j);
    let slot = after.scheduler.slots.slot(id);
    assert(slot == completed_slot(view.scheduler.slots.slot(id), events[i], committed[i]));
    assert(position_of(committed[i]) == Some(committed[i][0].token_position));
    lemma_slot_for(after.scheduler, id);
    assert(slot.request == view.scheduler.slots.slot(id).request);
    assert forall|a: int, b: int| 0 <= a < b < events.len() implies (
    #[trigger] events[a]).request@ != (#[trigger] events[b]).request@ by {
        assert(events[a].request != events[b].request);
        if events[a].request@ == events[b].request@ {
            RequestId::lemma_determined(events[a].request, events[b].request);
        }
    }
    law_completions_feed_their_own_requests(view.tokens, after.scheduler, events, i);
}

} // verus!
