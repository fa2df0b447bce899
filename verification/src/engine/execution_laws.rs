//! What plans, providers, backends and completions are held to.

use crate::engine::backend::{
    execution_defect, first_state_defect, fits_capabilities, state_defect, waited_by_polling,
    waited_for, waited_through, BackendCapabilitiesView, BackendError, BackendSubmissionId,
    ComputeBackend,
};
use crate::engine::device::DeviceId;
use crate::engine::execution::{
    all_declared, distinct_events, distinct_segments, has_phase, token_total,
    ExecutionBatchEvent, ExecutionEventView, ExecutionOutcome, ExecutionPhase,
    ExecutionPlanView, ExecutionSegmentView, ExecutionStage, PlanError, TokenInputView,
};
use crate::engine::model::{
    describes, first_undeclared, first_unknown_region, fits_description, plan_mismatch,
    ModelDescriptionView, ModelError, ModelProvider, ModelRegion, ModelRegionId,
};
use crate::engine::nvidia::{
    batch_dispatched, first_misfit, outcome_defect, outcome_events, output_fits, resolves,
    takes, visits, NvidiaView,
};
use crate::engine::policy::{snapshot_defect, PolicyError, PolicyVersion, SpeculationPolicy};
use crate::engine::qualification::{
    baseline_variant, ExecutionVariantView, QualificationScopeView, QualificationStatus,
};
use crate::engine::request::SamplingParams;
use crate::engine::residency::{
    first_repeated_resource, located, repeats_resource, ResidencyLocation,
    ResidencyOverrideView,
};
use crate::engine::runtime::{
    answered, applied, completion_matches, ends_as, event_matches, first_invalid, overruns,
    polled, positions_after, still_pending, submission_defect, submitted_after, waited,
    CompletedExecutionBatch, ExecutionRuntime, RuntimeError, RuntimeStateError,
    RuntimeSubmission, RuntimeSubmissionView,
};
use crate::engine::state::{satisfies, StateHandle, StateLocation, StateRequirement};
use crate::engine::state_laws::law_commits_move_each_set_to_its_position;
use crate::engine::state_manager::{LogicalStateManager, StateManager};
use crate::engine::weights::{
    find_name, first_repeated_name, product, repeats_name, spec_defect, WeightSpecError,
    WeightTensorSpecView,
};
use crate::text::blank;
use vstd::prelude::*;
use vstd::std_specs::cmp::PartialEqSpec;

verus! {

/// Whether a plan has a stage of a phase.
pub open spec fn staged(plan: ExecutionPlanView, phase: ExecutionPhase) -> bool {
    exists|i: int| 0 <= i < plan.stages.len() && (#[trigger] plan.stages[i]).phase == phase
}

/// Whether a plan declares all state that a segment depends on.
pub open spec fn declared(plan: ExecutionPlanView, segment: ExecutionSegmentView) -> bool {
    forall|i: int|
        0 <= i < segment.state_requirements.len() ==> plan.state_requirements.contains(
            #[trigger] segment.state_requirements[i],
        )
}

/// A segment belongs to a plan exactly where the plan has a stage of its phase and declares
/// all of its state.
pub proof fn law_segments_of_a_plan(plan: ExecutionPlanView, segment: ExecutionSegmentView)
    ensures
        plan.segment_defect(segment) is None <==> staged(plan, segment.phase) && declared(
            plan,
            segment,
        ),
        plan.segment_defect(segment) == Some(PlanError::SegmentPhaseMismatch) <==> !staged(
            plan,
            segment.phase,
        ),
        plan.segment_defect(segment) == Some(PlanError::SegmentStateUndeclared) <==> staged(
            plan,
            segment.phase,
        ) && !declared(plan, segment),
{
    assert(has_phase(plan.stages, segment.phase) == staged(
        plan,
        segment.phase,
    ));
    assert(all_declared(
        plan.state_requirements,
        segment.state_requirements,
    ) == declared(plan, segment));
}

/// A batch belongs to a plan exactly where every segment does; otherwise the first segment
/// that does not is why.
pub proof fn law_batches_of_a_plan(
    plan: ExecutionPlanView,
    batch: Seq<ExecutionSegmentView>,
    from: int,
)
    requires
        0 <= from <= batch.len(),
    ensures
        plan.batch_defect(batch, from) is None <==> forall|i: int|
            from <= i < batch.len() ==> plan.segment_defect(#[trigger] batch[i]) is None,
        plan.batch_defect(batch, from) is Some ==> exists|i: int|
            from <= i < batch.len() && plan.segment_defect(#[trigger] batch[i])
                == plan.batch_defect(batch, from) && forall|j: int|
                from <= j < i ==> plan.segment_defect(#[trigger] batch[j]) is None,
    decreases batch.len() - from,
{
    if from < batch.len() {
        if plan.segment_defect(batch[from]) is None {
            law_batches_of_a_plan(plan, batch, from + 1);
            if plan.batch_defect(batch, from) is Some {
                let i = choose|i: int|
                    from + 1 <= i < batch.len() && plan.segment_defect(#[trigger] batch[i])
                        == plan.batch_defect(batch, from + 1) && forall|j: int|
                        from + 1 <= j < i ==> plan.segment_defect(#[trigger] batch[j]) is None;
                assert(plan.segment_defect(batch[i]) == plan.batch_defect(batch, from));
            }
        } else {
            assert(plan.segment_defect(batch[from]) == plan.batch_defect(batch, from));
        }
    }
}

/// Token input is what a segment reads exactly where it is a prompt chunk of the segment's
/// size, for a prefill, or one token, for a decode of one token.
pub proof fn law_suitable_input(input: TokenInputView, phase: ExecutionPhase, token_count: u32)
    ensures
        input.suits(phase, token_count) <==> {
            ||| input matches TokenInputView::Prompt(tokens) && phase is Prefill && tokens.len()
                == token_count
            ||| input is Decode && phase is Decode && token_count == 1
        },
{
}

/// The tokens of a batch are those of its segments together.
pub proof fn law_batch_tokens_add_up(batch: Seq<ExecutionSegmentView>, at: int)
    requires
        0 <= at <= batch.len(),
    ensures
        at == batch.len() ==> token_total(batch, at) == 0,
        at < batch.len() ==> token_total(batch, at) == batch[at].token_count + token_total(
            batch,
            at + 1,
        ),
        token_total(batch, 0) == token_total(batch.take(at), 0) + token_total(batch, at),
    decreases at,
{
    if at > 0 {
        law_batch_tokens_add_up(batch, at - 1);
        lemma_total_split(batch, at, 0);
    } else {
        assert(batch.take(0).len() == 0);
    }
}

proof fn lemma_total_split(batch: Seq<ExecutionSegmentView>, at: int, from: int)
    requires
        0 <= from <= at <= batch.len(),
    ensures
        token_total(batch, from) == token_total(batch.take(at), from) + token_total(batch, at),
    decreases at - from,
{
    if from < at {
        lemma_total_split(batch, at, from + 1);
        assert(batch.take(at)[from] == batch[from]);
    }
}

/// State belongs to a segment on a device exactly where it meets every requirement of the
/// segment, stands at the segment's position and is not on another device. A set without
/// states stands nowhere.
pub proof fn law_state_of_a_segment(
    device: DeviceId,
    segment: ExecutionSegmentView,
    states: Seq<StateHandle>,
)
    ensures
        state_defect(device, segment, states) is None <==> {
            &&& forall|i: int|
                0 <= i < segment.state_requirements.len() ==> exists|k: int|
                    0 <= k < states.len() && (#[trigger] states[k]).requirement
                        == #[trigger] segment.state_requirements[i]
            &&& states.len() > 0 ==> states[0].token_position == segment.state_position
            &&& states.len() > 0 && states[0].location is Device ==> states[0].location
                == StateLocation::Device(device)
        },
        (forall|i: int| 0 <= i < segment.state_requirements.len() ==> satisfies(
            states,
            #[trigger] segment.state_requirements[i],
        )) ==> {
            &&& states.len() > 0 && states[0].token_position != segment.state_position
                ==> state_defect(device, segment, states) == Some(
                "state is at a different prefix position",
            )
            &&& states.len() > 0 && states[0].token_position == segment.state_position && (
            states[0].location matches StateLocation::Device(other) && other != device)
                ==> state_defect(device, segment, states) == Some(
                "state is resident on a different device",
            )
        },
        (exists|i: int|
            0 <= i < segment.state_requirements.len() && !satisfies(
                states,
                #[trigger] segment.state_requirements[i],
            )) ==> state_defect(device, segment, states) == Some(
            "segment state requirement is missing or has the wrong layout",
        ),
{
    let missing = exists|i: int|
        0 <= i < segment.state_requirements.len() && !satisfies(
            states,
            #[trigger] segment.state_requirements[i],
        );
    if missing {
        let i = choose|i: int|
            0 <= i < segment.state_requirements.len() && !satisfies(
                states,
                #[trigger] segment.state_requirements[i],
            );
        assert(!exists|k: int|
            0 <= k < states.len() && (#[trigger] states[k]).requirement
                == segment.state_requirements[i]);
    } else {
        assert forall|i: int| 0 <= i < segment.state_requirements.len() implies exists|k: int|
            0 <= k < states.len() && (#[trigger] states[k]).requirement
                == #[trigger] segment.state_requirements[i] by {
            assert(satisfies(states, segment.state_requirements[i]));
        }
    }
}

proof fn lemma_first_state(
    device: DeviceId,
    batch: Seq<ExecutionSegmentView>,
    states: Seq<Seq<StateHandle>>,
    from: int,
)
    requires
        0 <= from <= batch.len(),
    ensures
        first_state_defect(device, batch, states, from) is None <==> forall|i: int|
            from <= i < batch.len() ==> state_defect(device, #[trigger] batch[i], states[i]) is None,
    decreases batch.len() - from,
{
    if from < batch.len() {
        lemma_first_state(device, batch, states, from + 1);
    }
}

/// A backend takes a batch exactly where the plan is for this backend and device, every
/// segment belongs to the plan, and every segment comes with one set of its own state.
pub proof fn law_executable_batches(
    capabilities: BackendCapabilitiesView,
    plan: ExecutionPlanView,
    batch: Seq<ExecutionSegmentView>,
    states: Seq<Seq<StateHandle>>,
)
    ensures
        execution_defect(capabilities, plan, batch, states) is None <==> {
            &&& plan.backend == capabilities.backend
            &&& plan.device == capabilities.device
            &&& batch.len() == states.len()
            &&& forall|i: int|
                0 <= i < batch.len() ==> plan.segment_defect(#[trigger] batch[i]) is None
                    && state_defect(capabilities.device, batch[i], states[i]) is None
        },
        execution_defect(capabilities, plan, batch, states) == Some(BackendError::PlanMismatch)
            <==> plan.backend != capabilities.backend || plan.device != capabilities.device,
        execution_defect(capabilities, plan, batch, states) == Some(
            BackendError::StateCountMismatch,
        ) <==> plan.backend == capabilities.backend && plan.device == capabilities.device
            && batch.len() != states.len() && forall|i: int|
            0 <= i < batch.len() ==> plan.segment_defect(#[trigger] batch[i]) is None,
{
    law_batches_of_a_plan(plan, batch, 0);
    lemma_first_state(capabilities.device, batch, states, 0);
    if execution_defect(capabilities, plan, batch, states) is None {
        assert forall|i: int| 0 <= i < batch.len() implies plan.segment_defect(
            #[trigger] batch[i],
        ) is None && state_defect(capabilities.device, batch[i], states[i]) is None by {
            assert(plan.segment_defect(batch[i]) is None);
        }
    }
}

proof fn lemma_regions(
    stages: Seq<ExecutionStage>,
    regions: Seq<ModelRegion>,
    from: int,
)
    requires
        0 <= from <= stages.len(),
    ensures
        first_unknown_region(stages, regions, from) is None <==> forall|i: int|
            from <= i < stages.len() ==> describes(
                regions,
                (#[trigger] stages[i]).region,
            ),
        first_unknown_region(stages, regions, from) matches Some(region) ==> exists|i: int|
            from <= i < stages.len() && (#[trigger] stages[i]).region == region
                && !describes(regions, region),
    decreases stages.len() - from,
{
    if from < stages.len() {
        lemma_regions(stages, regions, from + 1);
        if describes(regions, stages[from].region) {
            if let Some(region) = first_unknown_region(stages, regions, from) {
                let i = choose|i: int|
                    from + 1 <= i < stages.len() && (#[trigger] stages[i]).region == region
                        && !describes(regions, region);
                assert(stages[i].region == region);
            }
        } else {
            assert(stages[from].region == stages[from].region);
        }
    }
}

proof fn lemma_undeclared(
    required: Seq<StateRequirement>,
    offered: Seq<StateRequirement>,
    from: int,
)
    requires
        0 <= from <= required.len(),
    ensures
        first_undeclared(required, offered, from) is None <==> forall|i: int|
            from <= i < required.len() ==> offered.contains(#[trigger] required[i]),
        first_undeclared(required, offered, from) matches Some(requirement) ==> exists|i: int|
            from <= i < required.len() && #[trigger] required[i] == requirement
                && !offered.contains(requirement),
    decreases required.len() - from,
{
    if from < required.len() {
        lemma_undeclared(required, offered, from + 1);
        if offered.contains(required[from]) {
            if let Some(requirement) = first_undeclared(required, offered, from) {
                let i = choose|i: int|
                    from + 1 <= i < required.len() && #[trigger] required[i] == requirement
                        && !offered.contains(requirement);
                assert(required[i] == requirement);
            }
        } else {
            assert(required[from] == required[from]);
        }
    }
}

/// Whether a model has a region.
pub open spec fn has_region(description: ModelDescriptionView, region: ModelRegionId) -> bool {
    exists|i: int|
        0 <= i < description.regions.len() && (#[trigger] description.regions[i]).id == region
}

/// A plan fits a model exactly where it names the model, its stages run in regions of the
/// model, and it asks for no state that the model does not declare. What it is refused for
/// is one of its own stages or requirements.
pub proof fn law_plans_that_fit_a_model(description: ModelDescriptionView, plan: ExecutionPlanView)
    ensures
        plan_mismatch(description, plan) is None <==> {
            &&& plan.model == description.id
            &&& forall|i: int|
                0 <= i < plan.stages.len() ==> has_region(
                    description,
                    (#[trigger] plan.stages[i]).region,
                )
            &&& forall|i: int|
                0 <= i < plan.state_requirements.len() ==> description.state_requirements.contains(
                    #[trigger] plan.state_requirements[i],
                )
        },
        plan_mismatch(description, plan) == Some(ModelError::PlanModelMismatch) <==> plan.model
            != description.id,
        plan_mismatch(description, plan) matches Some(ModelError::UnknownRegion(region))
            ==> !has_region(description, region) && exists|i: int|
            0 <= i < plan.stages.len() && (#[trigger] plan.stages[i]).region == region,
        plan_mismatch(description, plan) matches Some(ModelError::UndeclaredState(requirement))
            ==> !description.state_requirements.contains(requirement)
            && plan.state_requirements.contains(requirement),
{
    lemma_regions(plan.stages, description.regions, 0);
    lemma_undeclared(plan.state_requirements, description.state_requirements, 0);
    assert forall|region: ModelRegionId| #[trigger] has_region(description, region)
        == describes(description.regions, region) by {}
    if let Some(region) = first_unknown_region(plan.stages, description.regions, 0) {
        let i = choose|i: int|
            0 <= i < plan.stages.len() && (#[trigger] plan.stages[i]).region == region
                && !describes(description.regions, region);
        assert(!has_region(description, plan.stages[i].region));
    }
    if let Some(requirement) = first_undeclared(
        plan.state_requirements,
        description.state_requirements,
        0,
    ) {
        let i = choose|i: int|
            0 <= i < plan.state_requirements.len() && #[trigger] plan.state_requirements[i]
                == requirement && !description.state_requirements.contains(requirement);
        assert(plan.state_requirements.contains(requirement));
    }
}

/// A completion belongs to a batch exactly where it has one event for each segment, in order,
/// of the same request, phase and size and of the batch's policy, with an output token
/// exactly where the segment samples.
pub proof fn law_matching_completions(
    batch: Seq<ExecutionSegmentView>,
    events: Seq<ExecutionEventView>,
    policy_version: PolicyVersion,
)
    ensures
        completion_matches(batch, events, policy_version) <==> events.len() == batch.len()
            && forall|i: int|
            0 <= i < batch.len() ==> {
                &&& (#[trigger] events[i]).request == batch[i].request
                &&& events[i].phase == batch[i].phase
                &&& events[i].token_count == batch[i].token_count
                &&& events[i].policy_version == policy_version
                &&& events[i].output_token is Some <==> batch[i].sampling is Some
            },
{
    if completion_matches(batch, events, policy_version) {
        assert forall|i: int| 0 <= i < batch.len() implies {
            &&& (#[trigger] events[i]).request == batch[i].request
            &&& events[i].phase == batch[i].phase
            &&& events[i].token_count == batch[i].token_count
            &&& events[i].policy_version == policy_version
            &&& events[i].output_token is Some <==> batch[i].sampling is Some
        } by {
            assert(event_matches(batch[i], events[i], policy_version));
        }
    }
    if events.len() == batch.len() && forall|i: int|
        0 <= i < batch.len() ==> {
            &&& (#[trigger] events[i]).request == batch[i].request
            &&& events[i].phase == batch[i].phase
            &&& events[i].token_count == batch[i].token_count
            &&& events[i].policy_version == policy_version
            &&& events[i].output_token is Some <==> batch[i].sampling is Some
        } {
        assert forall|i: int| 0 <= i < batch.len() implies event_matches(
            #[trigger] batch[i],
            events[i],
            policy_version,
        ) by {
            assert(events[i].request == batch[i].request);
        }
    }
}

/// The position after a segment is as many tokens further as the segment counts.
pub proof fn law_positions_advance_by_the_tokens(batch: Seq<ExecutionSegmentView>, i: int)
    requires
        !overruns(batch),
        0 <= i < batch.len(),
    ensures
        positions_after(batch).len() == batch.len(),
        positions_after(batch)[i] == batch[i].state_position + batch[i].token_count,
{
    assert(batch[i].state_position + batch[i].token_count <= u32::MAX);
}

proof fn lemma_first_invalid<S: StateManager>(
    manager: S,
    states: Seq<Seq<StateHandle>>,
    from: int,
)
    requires
        0 <= from <= states.len(),
    ensures
        first_invalid(manager, states, from) is None <==> forall|i: int|
            from <= i < states.len() ==> manager.spec_validate(#[trigger] states[i]) is Ok,
    decreases states.len() - from,
{
    if from < states.len() {
        lemma_first_invalid(manager, states, from + 1);
    }
}

/// A batch reaches the backend exactly where the provider accepts its plan, each segment has
/// a set of states, the manager accepts each set, and every position after it can be counted.
pub proof fn law_batches_that_reach_the_backend<S: StateManager>(
    validation: Result<(), ModelError>,
    manager: S,
    batch: Seq<ExecutionSegmentView>,
    states: Seq<Seq<StateHandle>>,
)
    ensures
        submission_defect(validation, manager, batch, states) is None <==> {
            &&& validation is Ok
            &&& batch.len() == states.len()
            &&& forall|i: int|
                0 <= i < states.len() ==> manager.spec_validate(#[trigger] states[i]) is Ok
            &&& forall|i: int|
                0 <= i < batch.len() ==> (#[trigger] batch[i]).state_position
                    + batch[i].token_count <= u32::MAX
        },
        validation matches Err(error) ==> submission_defect(validation, manager, batch, states)
            == Some(RuntimeError::Model(error)),
        validation is Ok && batch.len() != states.len() ==> submission_defect(
            validation,
            manager,
            batch,
            states,
        ) == Some(RuntimeError::StateCountMismatch),
{
    lemma_first_invalid(manager, states, 0);
}

proof fn lemma_misfits(
    batch: Seq<ExecutionSegmentView>,
    outcomes: Seq<ExecutionOutcome>,
    from: int,
)
    requires
        0 <= from <= batch.len(),
    ensures
        first_misfit(batch, outcomes, from) is None <==> forall|i: int|
            from <= i < batch.len() ==> output_fits(#[trigger] batch[i], outcomes[i]),
    decreases batch.len() - from,
{
    if from < batch.len() {
        lemma_misfits(batch, outcomes, from + 1);
    }
}

/// Outcomes fit a batch exactly where there is one for each segment, with an output token
/// exactly where the segment samples.
pub proof fn law_fitting_outcomes(batch: Seq<ExecutionSegmentView>, outcomes: Seq<ExecutionOutcome>)
    ensures
        outcome_defect(batch, outcomes) is None <==> outcomes.len() == batch.len() && forall|i: int|
            0 <= i < batch.len() ==> ((#[trigger] outcomes[i]).output_token is Some
                <==> batch[i].sampling is Some),
{
    lemma_misfits(batch, outcomes, 0);
    if outcome_defect(batch, outcomes) is None {
        assert forall|i: int| 0 <= i < batch.len() implies ((
        #[trigger] outcomes[i]).output_token is Some <==> batch[i].sampling is Some) by {
            assert(output_fits(batch[i], outcomes[i]));
        }
    }
    if outcomes.len() == batch.len() && forall|i: int|
        0 <= i < batch.len() ==> ((#[trigger] outcomes[i]).output_token is Some
            <==> batch[i].sampling is Some) {
        assert forall|i: int| 0 <= i < batch.len() implies output_fits(
            #[trigger] batch[i],
            outcomes[i],
        ) by {
            assert(outcomes[i].output_token is Some <==> batch[i].sampling is Some);
        }
    }
}

/// An event reports the work of its segment under the policy of the batch, with what the
/// device measured and sampled for that segment.
pub proof fn law_events_report_their_outcomes(
    batch: Seq<ExecutionSegmentView>,
    policy_version: PolicyVersion,
    outcomes: Seq<ExecutionOutcome>,
    i: int,
)
    requires
        0 <= i < batch.len(),
    ensures
        outcome_events(batch, policy_version, outcomes).len() == batch.len(),
        ({
            let event = outcome_events(batch, policy_version, outcomes)[i];
            &&& event.request == batch[i].request
            &&& event.policy_version == policy_version
            &&& event.phase == batch[i].phase
            &&& event.token_count == batch[i].token_count
            &&& event.metrics == outcomes[i].metrics
            &&& event.output_token == outcomes[i].output_token
        }),
{
}

/// What a backend took is found again under its identity, as it was submitted: at once where
/// it is complete, and waiting where it is not. No other submission changes.
pub proof fn law_taken_batches_are_found_again(
    backend: NvidiaView,
    id: u64,
    batch: Seq<ExecutionSegmentView>,
    policy_version: PolicyVersion,
    outcomes: Option<Seq<ExecutionOutcome>>,
    other: u64,
)
    ensures
        ({
            let after = backend.accepted(id, batch, policy_version, outcomes);
            &&& outcomes is Some ==> after.completed.contains_key(id) && after.completed[id]
                == outcome_events(batch, policy_version, outcomes->Some_0) && after.pending
                == backend.pending
            &&& outcomes is None ==> after.pending.contains_key(id) && after.pending[id].batch
                == batch && after.pending[id].policy_version == policy_version
                && after.completed == backend.completed
            &&& other != id ==> after.completed.contains_key(other)
                == backend.completed.contains_key(other) && after.pending.contains_key(other)
                == backend.pending.contains_key(other) && (backend.completed.contains_key(other)
                ==> after.completed[other] == backend.completed[other]) && (
            backend.pending.contains_key(other) ==> after.pending[other]
                == backend.pending[other])
            &&& after.next_submission == backend.next_submission
            &&& after.capabilities == backend.capabilities
        }),
{
}

/// Identities are issued one after the other, and never again.
pub proof fn law_submission_identities_increase(backend: NvidiaView)
    ensures
        backend.can_identify() <==> 0 < backend.next_submission < u64::MAX,
        backend.can_identify() ==> backend.issued().next_submission == backend.next_submission + 1,
        backend.issued().capabilities == backend.capabilities,
        backend.issued().completed == backend.completed,
        backend.issued().pending == backend.pending,
{
}

/// A policy is refused exactly where a batch could hold no request or no token, or where
/// speculation could draft none.
pub proof fn law_usable_policies(
    max_batch_size: u32,
    max_batch_tokens: u32,
    speculation: SpeculationPolicy,
)
    ensures
        snapshot_defect(max_batch_size, max_batch_tokens, speculation) == Some(
            PolicyError::ZeroBatchBudget,
        ) <==> max_batch_size == 0 || max_batch_tokens == 0,
        snapshot_defect(max_batch_size, max_batch_tokens, speculation) == Some(
            PolicyError::ZeroDraftBudget,
        ) <==> max_batch_size > 0 && max_batch_tokens > 0 && speculation == (
        SpeculationPolicy::NativeMtp { max_draft_tokens: 0 }),
        snapshot_defect(max_batch_size, max_batch_tokens, speculation) is None <==> max_batch_size
            > 0 && max_batch_tokens > 0 && speculation != (SpeculationPolicy::NativeMtp {
            max_draft_tokens: 0,
        }),
{
}

/// A variant may be used in a scope exactly where it is qualified by evidence for that scope,
/// in every dimension of it.
pub proof fn law_eligible_variants(variant: ExecutionVariantView, scope: QualificationScopeView)
    ensures
        variant.eligible(scope) <==> {
            &&& variant.status == QualificationStatus::Qualified
            &&& variant.evidence matches Some(evidence) && evidence.scope.model == scope.model
                && evidence.scope.artifact_identity == scope.artifact_identity
                && evidence.scope.backend == scope.backend && evidence.scope.device == scope.device
                && evidence.scope.runtime_identity == scope.runtime_identity
                && evidence.scope.state_execution_identity == scope.state_execution_identity
        },
        variant.attested() <==> variant.evidence is None || variant.evidence->Some_0.variant
            == variant.id,
{
    if let Some(evidence) = variant.evidence {
        if evidence.scope.model == scope.model && evidence.scope.artifact_identity
            == scope.artifact_identity && evidence.scope.backend == scope.backend
            && evidence.scope.device == scope.device && evidence.scope.runtime_identity
            == scope.runtime_identity && evidence.scope.state_execution_identity
            == scope.state_execution_identity {
            assert(evidence.scope =~= scope);
        }
    }
}

/// A resource is where its first override puts it, and at the default place without one.
pub proof fn law_overrides_place_their_resource(
    overrides: Seq<ResidencyOverrideView>,
    default_location: ResidencyLocation,
    resource: Seq<char>,
    from: int,
)
    requires
        0 <= from <= overrides.len(),
    ensures
        (forall|i: int| from <= i < overrides.len() ==> (#[trigger] overrides[i]).resource
            != resource) ==> located(overrides, default_location, resource, from)
            == default_location,
        forall|i: int|
            from <= i < overrides.len() && (#[trigger] overrides[i]).resource == resource && (
            forall|j: int| from <= j < i ==> (#[trigger] overrides[j]).resource != resource)
                ==> located(overrides, default_location, resource, from) == overrides[i].location,
    decreases overrides.len() - from,
{
    if from < overrides.len() {
        law_overrides_place_their_resource(overrides, default_location, resource, from + 1);
    }
}

/// Overrides are refused exactly where two name the same resource.
pub proof fn law_repeated_resources(overrides: Seq<ResidencyOverrideView>)
    ensures
        first_repeated_resource(overrides, 0) is None <==> forall|i: int, j: int|
            0 <= i < j < overrides.len() ==> (#[trigger] overrides[i]).resource != (
            #[trigger] overrides[j]).resource,
        first_repeated_resource(overrides, 0) matches Some(resource) ==> exists|i: int, j: int|
            0 <= i < j < overrides.len() && (#[trigger] overrides[i]).resource == resource && (
            #[trigger] overrides[j]).resource == resource,
{
    lemma_repeated_resources(overrides, 0);
}

proof fn lemma_repeated_resources(overrides: Seq<ResidencyOverrideView>, from: int)
    requires
        0 <= from <= overrides.len(),
    ensures
        first_repeated_resource(overrides, from) is None <==> forall|i: int, j: int|
            0 <= i < j < overrides.len() && from <= j ==> (#[trigger] overrides[i]).resource != (
            #[trigger] overrides[j]).resource,
        first_repeated_resource(overrides, from) matches Some(resource) ==> exists|i: int, j: int|
            0 <= i < j < overrides.len() && (#[trigger] overrides[i]).resource == resource && (
            #[trigger] overrides[j]).resource == resource,
    decreases overrides.len() - from,
{
    if from < overrides.len() {
        lemma_repeated_resources(overrides, from + 1);
        if repeats_resource(overrides, from) {
            let i = choose|i: int|
                0 <= i < from && (#[trigger] overrides[i]).resource == overrides[from].resource;
            assert(overrides[i].resource == overrides[from].resource);
        } else {
            assert forall|i: int| 0 <= i < from implies (#[trigger] overrides[i]).resource
                != overrides[from].resource by {}
        }
    }
}

/// The elements of a shape are the product of its dimensions.
pub proof fn law_element_counts(dimensions: Seq<u64>)
    ensures
        dimensions.len() == 0 ==> product(dimensions, 0) == 1,
        dimensions.len() > 0 ==> product(dimensions, 0) == dimensions[0] * product(
            dimensions.skip(1),
            0,
        ),
{
    if dimensions.len() > 0 {
        lemma_product_skip(dimensions, 0);
    }
}

proof fn lemma_product_skip(dimensions: Seq<u64>, from: int)
    requires
        dimensions.len() > 0,
        0 <= from <= dimensions.len() - 1,
    ensures
        product(dimensions, from + 1) == product(dimensions.skip(1), from),
    decreases dimensions.len() - from,
{
    if from + 1 < dimensions.len() {
        lemma_product_skip(dimensions, from + 1);
        assert(dimensions.skip(1)[from] == dimensions[from + 1]);
    }
}

/// A tensor is refused exactly for a blank name, a shape without dimensions, a dimension of
/// zero or an element count that cannot be represented, and for the first of these.
pub proof fn law_usable_tensors(name: Seq<char>, dimensions: Seq<u64>)
    ensures
        spec_defect(name, dimensions) is None <==> !blank(name) && dimensions.len() > 0
            && !dimensions.contains(0) && product(dimensions, 0) <= u64::MAX,
        spec_defect(name, dimensions) == Some(WeightSpecError::EmptyName) <==> blank(name),
        spec_defect(name, dimensions) == Some(WeightSpecError::EmptyShape) <==> !blank(name)
            && dimensions.len() == 0,
        spec_defect(name, dimensions) == Some(WeightSpecError::ZeroDimension) <==> !blank(name)
            && dimensions.contains(0),
{
}

/// A tensor is found under its name, and the first of that name where there are several.
pub proof fn law_tensors_are_found_by_name(
    tensors: Seq<WeightTensorSpecView>,
    name: Seq<char>,
    from: int,
)
    requires
        0 <= from <= tensors.len(),
    ensures
        match find_name(tensors, name, from) {
            Some(at) => {
                &&& from <= at < tensors.len()
                &&& tensors[at].name == name
                &&& forall|j: int| from <= j < at ==> (#[trigger] tensors[j]).name != name
            },
            None => forall|j: int|
                from <= j < tensors.len() ==> (#[trigger] tensors[j]).name != name,
        },
    decreases tensors.len() - from,
{
    if from < tensors.len() {
        law_tensors_are_found_by_name(tensors, name, from + 1);
    }
}

/// Tensors are refused exactly where two have the same name.
pub proof fn law_repeated_names(tensors: Seq<WeightTensorSpecView>)
    ensures
        first_repeated_name(tensors, 0) is None <==> forall|i: int, j: int|
            0 <= i < j < tensors.len() ==> (#[trigger] tensors[i]).name != (
            #[trigger] tensors[j]).name,
        first_repeated_name(tensors, 0) matches Some(name) ==> exists|i: int, j: int|
            0 <= i < j < tensors.len() && (#[trigger] tensors[i]).name == name && (
            #[trigger] tensors[j]).name == name,
{
    lemma_repeated_names(tensors, 0);
}

proof fn lemma_repeated_names(tensors: Seq<WeightTensorSpecView>, from: int)
    requires
        0 <= from <= tensors.len(),
    ensures
        first_repeated_name(tensors, from) is None <==> forall|i: int, j: int|
            0 <= i < j < tensors.len() && from <= j ==> (#[trigger] tensors[i]).name != (
            #[trigger] tensors[j]).name,
        first_repeated_name(tensors, from) matches Some(name) ==> exists|i: int, j: int|
            0 <= i < j < tensors.len() && (#[trigger] tensors[i]).name == name && (
            #[trigger] tensors[j]).name == name,
    decreases tensors.len() - from,
{
    if from < tensors.len() {
        lemma_repeated_names(tensors, from + 1);
        if repeats_name(tensors, from) {
            let i = choose|i: int|
                0 <= i < from && (#[trigger] tensors[i]).name == tensors[from].name;
            assert(tensors[i].name == tensors[from].name);
        } else {
            assert forall|i: int| 0 <= i < from implies (#[trigger] tensors[i]).name
                != tensors[from].name by {}
        }
    }
}

/// Whether there is one outcome for each segment, with an output token exactly where the
/// segment samples.
pub open spec fn fitting(
    batch: Seq<ExecutionSegmentView>,
    outcomes: Seq<ExecutionOutcome>,
) -> bool {
    outcomes.len() == batch.len() && forall|i: int|
        0 <= i < batch.len() ==> ((#[trigger] outcomes[i]).output_token is Some
            <==> batch[i].sampling is Some)
}

/// What a dispatcher's answer makes of a submission. An error is handed on, and nothing is
/// kept of the batch; the same holds of outcomes that do not fit it. Fitting outcomes are
/// kept for the next poll, and a batch without outcomes yet waits for them. An identity is
/// used up either way.
pub proof fn law_dispatched_submissions(
    before: NvidiaView,
    submission: BackendSubmissionId,
    batch: Seq<ExecutionSegmentView>,
    policy_version: PolicyVersion,
    answer: Result<Option<Vec<ExecutionOutcome>>, BackendError>,
    after: NvidiaView,
    result: Result<BackendSubmissionId, BackendError>,
)
    requires
        before.can_identify(),
        takes(before, submission, batch, policy_version, answer, after, result),
    ensures
        after.next_submission == before.next_submission + 1,
        result matches Ok(id) ==> id == submission,
        answer matches Err(error) ==> result == Err::<BackendSubmissionId, BackendError>(error),
        result is Ok <==> answer is Ok && (answer->Ok_0 is Some ==> fitting(
            batch,
            answer->Ok_0->Some_0@,
        )),
        result is Err ==> after.completed == before.completed && after.pending == before.pending,
        result is Ok && answer->Ok_0 is None ==> {
            &&& after.pending.contains_key(submission@)
            &&& after.pending[submission@].batch == batch
            &&& after.pending[submission@].policy_version == policy_version
            &&& after.completed == before.completed
        },
        result is Ok && answer->Ok_0 is Some ==> {
            &&& after.completed.contains_key(submission@)
            &&& after.completed[submission@] == outcome_events(
                batch,
                policy_version,
                answer->Ok_0->Some_0@,
            )
            &&& after.pending == before.pending
        },
{
    if let Ok(Some(outcomes)) = answer {
        law_fitting_outcomes(batch, outcomes@);
    }
}

/// What a dispatcher's answer makes of a submission that waits: it goes on waiting while
/// there is no answer, and is answered once otherwise, with what was completed where that
/// fits the batch.
pub proof fn law_awaited_submissions(
    before: NvidiaView,
    submission: BackendSubmissionId,
    answer: Result<Option<Vec<ExecutionOutcome>>, BackendError>,
    after: NvidiaView,
    r: Result<Option<ExecutionBatchEvent>, BackendError>,
)
    requires
        before.pending.contains_key(submission@),
        resolves(before, submission, answer, after, r),
    ensures
        answer matches Ok(None) ==> r == Ok::<Option<ExecutionBatchEvent>, BackendError>(None)
            && after == before,
        !(answer matches Ok(None)) ==> !after.pending.contains_key(submission@) && after.pending
            == before.pending.remove(submission@) && after.completed == before.completed,
        answer matches Err(error) ==> r == Err::<Option<ExecutionBatchEvent>, BackendError>(error),
        answer matches Ok(Some(outcomes)) ==> {
            let batch = before.pending[submission@].batch;
            &&& r is Ok <==> fitting(batch, outcomes@)
            &&& r is Ok ==> r->Ok_0 is Some && r->Ok_0->Some_0@ == outcome_events(
                batch,
                before.pending[submission@].policy_version,
                outcomes@,
            )
        },
{
    if let Ok(Some(outcomes)) = answer {
        law_fitting_outcomes(before.pending[submission@].batch, outcomes@);
    }
}

/// A batch that the backend took waits as it was submitted, under the policy of its plan and
/// with the position behind each of its segments; one that it did not take comes back with a
/// set of states for each segment.
pub proof fn law_submitted_batches_wait<P: ModelProvider, B: ComputeBackend, S: StateManager>(
    before: ExecutionRuntime<P, B, S>,
    plan: ExecutionPlanView,
    batch: Seq<ExecutionSegmentView>,
    states: Seq<Seq<StateHandle>>,
    validation: Result<(), ModelError>,
    after: ExecutionRuntime<P, B, S>,
    r: Result<RuntimeSubmission, RuntimeStateError>,
    i: int,
)
    requires
        submitted_after(before, plan, batch, states, validation, after, r),
    ensures
        r is Ok ==> {
            &&& submission_defect(validation, before.spec_state_manager(), batch, states) is None
            &&& r->Ok_0@.batch == batch
            &&& r->Ok_0@.policy_version == plan.policy_version
            &&& r->Ok_0@.states is Some
            &&& r->Ok_0@.states->Some_0.len() == batch.len()
            &&& r->Ok_0@.next_positions.len() == batch.len()
            &&& 0 <= i < batch.len() ==> r->Ok_0@.next_positions[i] == batch[i].state_position
                + batch[i].token_count
        },
        r is Err ==> r->Err_0.returned().len() == states.len(),
        submission_defect(validation, before.spec_state_manager(), batch, states) matches Some(
            error,
        ) ==> r is Err && r->Err_0.reason() == error && r->Err_0.returned() == states
            && after.spec_backend() == before.spec_backend(),
{
    if r is Ok && 0 <= i < batch.len() {
        law_batches_that_reach_the_backend(
            validation,
            before.spec_state_manager(),
            batch,
            states,
        );
        assert(batch[i].state_position + batch[i].token_count <= u32::MAX);
    }
}

/// A completion moves each set of states behind its own segment, and only a completion of the
/// submitted work does. Whatever fails, the submission keeps its states.
pub proof fn law_completions_move_state_behind_the_segment(
    manager: LogicalStateManager,
    submission: RuntimeSubmissionView,
    events: Seq<ExecutionEventView>,
    manager_after: LogicalStateManager,
    after: RuntimeSubmissionView,
    r: Result<CompletedExecutionBatch, RuntimeError>,
    i: int,
    k: int,
)
    requires
        applied(manager, submission, events, manager_after, after, r),
        submission.next_positions == positions_after(submission.batch),
        !overruns(submission.batch),
    ensures
        r matches Ok(completed) ==> {
            let states = submission.states->Some_0;
            &&& submission.accepts(events)
            &&& submission.states is Some
            &&& completed.events() == events
            &&& completed.committed().len() == submission.batch.len() == states.len()
            &&& after.states is None
            &&& 0 <= i < states.len() && 0 <= k < states[i].len() ==> {
                let handle = completed.committed()[i][k];
                &&& handle.id == states[i][k].id
                &&& handle.requirement == states[i][k].requirement
                &&& handle.location == states[i][k].location
                &&& handle.token_position == submission.batch[i].state_position
                    + submission.batch[i].token_count
            }
        },
        r is Err ==> after.states is Some == submission.states is Some && manager_after@
            == manager@ && (submission.states is Some ==> after.states == submission.states),
        !submission.accepts(events) ==> r == Err::<CompletedExecutionBatch, RuntimeError>(
            RuntimeError::CompletionMismatch,
        ) && after == submission,
{
    if let Some(states) = submission.states {
        if let Ok(completed) = r {
            law_commits_move_each_set_to_its_position(
                manager,
                states,
                submission.next_positions,
                manager_after,
                completed.committed(),
                Ok(()),
                i,
                k,
            );
            if 0 <= i < submission.batch.len() {
                law_positions_advance_by_the_tokens(submission.batch, i);
            }
        } else if submission.accepts(events) {
            law_commits_move_each_set_to_its_position(
                manager,
                states,
                submission.next_positions,
                manager_after,
                after.states->Some_0,
                Err(r->Err_0->State_0),
                i,
                k,
            );
        }
    }
}

/// What a backend's answer to a poll does: an error or no answer leaves the submission and
/// the states alone, and only a completion is applied.
pub proof fn law_unanswered_polls_change_nothing<S: StateManager>(
    manager: S,
    submission: RuntimeSubmissionView,
    answer: Result<Option<ExecutionBatchEvent>, BackendError>,
    manager_after: S,
    after: RuntimeSubmissionView,
    r: Result<Option<CompletedExecutionBatch>, RuntimeError>,
)
    requires
        answered(manager, submission, answer, manager_after, after, r),
    ensures
        answer matches Ok(None) ==> r == Ok::<Option<CompletedExecutionBatch>, RuntimeError>(None)
            && after == submission && manager_after == manager,
        answer matches Err(error) ==> r == Err::<Option<CompletedExecutionBatch>, RuntimeError>(
            RuntimeError::Backend(error),
        ) && after == submission && manager_after == manager,
        r matches Ok(Some(completed)) ==> answer is Ok && answer->Ok_0 is Some
            && completed.events() == answer->Ok_0->Some_0@ && submission.accepts(
            answer->Ok_0->Some_0@,
        ),
{
}

/// A wait ends as its last poll did: with the completion, or with the reason and the states
/// that the submission still holds.
pub proof fn law_waits_end_as_the_last_poll(
    last: Result<Option<CompletedExecutionBatch>, RuntimeError>,
    submission: RuntimeSubmissionView,
    r: Result<CompletedExecutionBatch, RuntimeStateError>,
)
    requires
        ends_as(last, submission, r),
    ensures
        r is Ok <==> last is Ok && last->Ok_0 is Some,
        r is Ok ==> r->Ok_0 == last->Ok_0->Some_0,
        last matches Ok(None) ==> r->Err_0.reason() == RuntimeError::WaitExhausted,
        last matches Err(error) ==> r->Err_0.reason() == error,
        r is Err && submission.states is Some ==> r->Err_0.returned()
            == submission.states->Some_0,
        r is Err && submission.states is None ==> r->Err_0.returned().len() == 0,
{
}

/// What a plan runs as where nothing else is chosen has not been qualified for anything.
pub proof fn law_baseline_is_not_qualified(scope: QualificationScopeView)
    ensures
        baseline_variant().status == QualificationStatus::Experimental,
        baseline_variant().evidence is None,
        !baseline_variant().eligible(scope),
        baseline_variant().attested(),
{
}

/// A check succeeds exactly where there is no defect, and fails with the defect otherwise.
pub proof fn law_checks_report_the_defect(
    capabilities: BackendCapabilitiesView,
    plan: ExecutionPlanView,
    batch: Seq<ExecutionSegmentView>,
    states: Seq<Seq<StateHandle>>,
    screened: Result<(), BackendError>,
    description: ModelDescriptionView,
    vetted: Result<(), ModelError>,
)
    requires
        fits_capabilities(capabilities, plan, batch, states, screened),
        fits_description(description, plan, vetted),
    ensures
        screened is Ok <==> execution_defect(capabilities, plan, batch, states) is None,
        screened matches Err(error) ==> execution_defect(capabilities, plan, batch, states) == Some(
            error,
        ),
        vetted is Ok <==> plan_mismatch(description, plan) is None,
        vetted matches Err(error) ==> plan_mismatch(description, plan) == Some(error),
{
}

/// A wait by polling goes on while the answer is pending: it ends with the first other answer,
/// and without one only once as many polls were pending as can be counted.
pub proof fn law_waiting_backends_poll_until_answered<B>(
    polls: spec_fn(B, B, Result<Option<ExecutionBatchEvent>, BackendError>) -> bool,
    before: B,
    after: B,
    r: Result<ExecutionBatchEvent, BackendError>,
)
    requires
        waited_by_polling(polls, before, after, r),
    ensures
        exists|trace: Seq<B>, answer: Result<Option<ExecutionBatchEvent>, BackendError>|
            {
                &&& #[trigger] waited_through(polls, before, trace, after, answer)
                &&& trace.len() > 0
                &&& trace[0] == before
                &&& polls(trace.last(), after, answer)
                &&& forall|i: int|
                    0 <= i < trace.len() - 1 ==> polls(#[trigger] trace[i], trace[i + 1], Ok(None))
                &&& r matches Ok(event) ==> answer == Ok::<
                    Option<ExecutionBatchEvent>,
                    BackendError,
                >(Some(event))
                &&& answer matches Err(error) ==> r == Err::<ExecutionBatchEvent, BackendError>(
                    error,
                )
                &&& answer matches Ok(None) ==> r == Err::<ExecutionBatchEvent, BackendError>(
                    BackendError::WaitExhausted,
                ) && trace.len() == u64::MAX
            },
{
    let (trace, answer) = choose|
        trace: Seq<B>,
        answer: Result<Option<ExecutionBatchEvent>, BackendError>,
    | #[trigger]
        waited_through(polls, before, trace, after, answer) && r == waited_for(answer);
    assert(waited_through(polls, before, trace, after, answer));
}

/// A wait for a submission goes on while it is pending: it gives up only once as many polls
/// were pending as can be counted.
pub proof fn law_waits_do_not_give_up<P: ModelProvider, B: ComputeBackend, S: StateManager>(
    before: ExecutionRuntime<P, B, S>,
    submission: RuntimeSubmissionView,
    after: ExecutionRuntime<P, B, S>,
    r: Result<CompletedExecutionBatch, RuntimeStateError>,
)
    requires
        waited(before, submission, after, r),
        r is Err,
        r->Err_0.reason() == RuntimeError::WaitExhausted,
    ensures
        exists|trace: Seq<ExecutionRuntime<P, B, S>>|
            {
                &&& #[trigger] still_pending(before, submission, trace)
                &&& trace.len() == u64::MAX
                &&& trace[0] == before
            },
{
    let (trace, left, last) = choose|
        trace: Seq<ExecutionRuntime<P, B, S>>,
        left: RuntimeSubmissionView,
        last: Result<Option<CompletedExecutionBatch>, RuntimeError>,
    |
        {
            &&& #[trigger] still_pending(before, submission, trace)
            &&& #[trigger] polled(trace.last(), submission, after, left, last)
            &&& ends_as(last, left, r)
            &&& last == Ok::<Option<CompletedExecutionBatch>, RuntimeError>(None) ==> trace.len()
                == u64::MAX
        };
    assert(still_pending(before, submission, trace));
}

/// Settings are equal exactly where their seeds and limits are the same and their numbers have
/// the same values.
pub proof fn law_equal_settings(a: SamplingParams, b: SamplingParams)
    ensures
        a.eq_spec(&b) <==> {
            &&& a@.seed == b@.seed
            &&& a@.top_k == b@.top_k
            &&& a@.temperature.at_least(b@.temperature) && b@.temperature.at_least(a@.temperature)
            &&& a@.top_p.at_least(b@.top_p) && b@.top_p.at_least(a@.top_p)
        },
{
}

/// No request has two segments, or two events, where none of them repeats a request.
pub proof fn law_requests_occur_once(
    segments: Seq<ExecutionSegmentView>,
    events: Seq<ExecutionEventView>,
)
    ensures
        distinct_segments(segments) <==> segments.map_values(
            |segment: ExecutionSegmentView| segment.request,
        ).no_duplicates(),
        distinct_events(events) <==> events.map_values(
            |event: ExecutionEventView| event.request,
        ).no_duplicates(),
{
    let one = segments.map_values(|segment: ExecutionSegmentView| segment.request);
    let two = events.map_values(|event: ExecutionEventView| event.request);
    if distinct_segments(segments) {
        assert forall|i: int, j: int|
            0 <= i < one.len() && 0 <= j < one.len() && i != j implies one[i] != one[j] by {
            if i < j {
                assert(segments[i].request != segments[j].request);
            } else {
                assert(segments[j].request != segments[i].request);
            }
        }
    }
    if one.no_duplicates() {
        assert forall|i: int, j: int| 0 <= i < j < segments.len() implies (
        #[trigger] segments[i]).request != (#[trigger] segments[j]).request by {
            assert(one[i] != one[j]);
        }
    }
    if distinct_events(events) {
        assert forall|i: int, j: int|
            0 <= i < two.len() && 0 <= j < two.len() && i != j implies two[i] != two[j] by {
            if i < j {
                assert(events[i].request != events[j].request);
            } else {
                assert(events[j].request != events[i].request);
            }
        }
    }
    if two.no_duplicates() {
        assert forall|i: int, j: int| 0 <= i < j < events.len() implies (
        #[trigger] events[i]).request != (#[trigger] events[j]).request by {
            assert(two[i] != two[j]);
        }
    }
}

/// Whether the sets behind one of them are as they were.
pub open spec fn untouched_behind(
    before: Seq<Seq<StateHandle>>,
    after: Seq<Seq<StateHandle>>,
    k: int,
) -> bool {
    forall|i: int| k < i < before.len() ==> #[trigger] after[i] == before[i]
}

/// A batch that is dispatched segment by segment gives one outcome for each, in order, each
/// with the dispatcher as the one before left it. The first that fails ends it, and the states
/// behind it are untouched. Without one state for each segment nothing is dispatched.
pub proof fn law_segments_are_dispatched_in_order<D>(
    step: spec_fn(D, int, Seq<StateHandle>, D, Result<ExecutionOutcome, BackendError>) -> bool,
    count: nat,
    dispatcher: D,
    before: Seq<Seq<StateHandle>>,
    last: D,
    after: Seq<Seq<StateHandle>>,
    r: Result<Vec<ExecutionOutcome>, BackendError>,
)
    requires
        batch_dispatched(step, count, dispatcher, before, last, after, r),
    ensures
        count != before.len() ==> r == Err::<Vec<ExecutionOutcome>, BackendError>(
            BackendError::StateCountMismatch,
        ) && last == dispatcher && after == before,
        r matches Ok(outcomes) ==> outcomes@.len() == count && exists|chain: Seq<D>|
            chain.len() == count + 1 && chain[0] == dispatcher && chain.last() == last
                && #[trigger] visits(step, after, chain, outcomes@),
        r is Err && count == before.len() ==> exists|k: int|
            0 <= k < before.len() && #[trigger] untouched_behind(before, after, k),
{
    if count == before.len() {
        let (chain, outcomes) = choose|chain: Seq<D>, outcomes: Seq<ExecutionOutcome>| #[trigger]
            visits(step, after, chain, outcomes) && chain[0] == dispatcher && (match r {
                Ok(answered) => answered@ == outcomes && outcomes.len() == before.len() && last
                    == chain.last(),
                Err(error) => {
                    let k = outcomes.len() as int;
                    &&& k < before.len()
                    &&& step(chain.last(), k, after[k], last, Err(error))
                    &&& forall|i: int| k < i < before.len() ==> #[trigger] after[i] == before[i]
                },
            });
        if r is Ok {
            assert(visits(step, after, chain, r->Ok_0@));
        } else {
            assert(untouched_behind(before, after, outcomes.len() as int));
        }
    }
}

} // verus!
