//! Persistent request-slot bookkeeping for the serving runtime.

use crate::engine::backend::BackendSubmissionId;
use crate::engine::execution::ExecutionPhase;
use crate::engine::request::{RequestId, RequestSpec, RequestSpecView};
use crate::engine::state::{InferenceStateSet, StateHandle};
use vstd::prelude::*;

verus! {

/// A slot of the table, at one of its generations.
#[derive(Clone, Copy, Debug, Hash, PartialEq, Eq, Structural)]
pub struct RequestSlotId {
    pub index: u32,
    pub generation: u32,
}

impl RequestSlotId {
    #[must_use]
    pub fn index(self) -> (r: u32)
        ensures
            r == self.index,
    {
        self.index
    }

    #[must_use]
    pub fn generation(self) -> (r: u32)
        ensures
            r == self.generation,
    {
        self.generation
    }
}

#[derive(Clone, Copy, Debug, Hash, PartialEq, Eq, Structural)]
pub enum RequestLifecycle {
    Waiting,
    Runnable,
    Submitting,
    InFlight(BackendSubmissionId),
    Cancelling(BackendSubmissionId),
    Completed,
    Cancelled,
    Failed,
}

impl RequestLifecycle {
    /// Whether the request has ended.
    pub open spec fn terminal(self) -> bool {
        self is Completed || self is Cancelled || self is Failed
    }

    /// The submission that owns the request's state, if one does.
    pub open spec fn owner(self) -> Option<BackendSubmissionId> {
        match self {
            RequestLifecycle::InFlight(submission) => Some(submission),
            RequestLifecycle::Cancelling(submission) => Some(submission),
            _ => None,
        }
    }

    #[must_use]
    pub fn is_terminal(self) -> (r: bool)
        ensures
            r == self.terminal(),
    {
        match self {
            RequestLifecycle::Completed => true,
            RequestLifecycle::Cancelled => true,
            RequestLifecycle::Failed => true,
            _ => false,
        }
    }

    /// The submission that owns the request's state, if one does.
    #[must_use]
    pub fn submission(self) -> (r: Option<BackendSubmissionId>)
        ensures
            r == self.owner(),
    {
        match self {
            RequestLifecycle::InFlight(submission) => Some(submission),
            RequestLifecycle::Cancelling(submission) => Some(submission),
            _ => None,
        }
    }
}

/// How far a request has come.
#[derive(Clone, Copy, Debug, Hash, PartialEq, Eq, Structural)]
pub struct RequestProgress {
    pub prompt_tokens: u32,
    pub prompt_processed: u32,
    /// Generated tokens that were read back as decode input.
    pub decode_processed: u32,
    pub generated_tokens: u32,
}

impl RequestProgress {
    /// The progress of a request that has not started.
    pub open spec fn fresh(prompt_tokens: u32) -> RequestProgress {
        RequestProgress { prompt_tokens, prompt_processed: 0, decode_processed: 0, generated_tokens: 0 }
    }

    /// The progress after committed work, where it can be counted.
    pub open spec fn recorded(self, phase: ExecutionPhase, token_count: u32) -> Option<
        RequestProgress,
    > {
        match phase {
            ExecutionPhase::Prefill => if self.prompt_processed + token_count
                > self.prompt_tokens {
                None
            } else {
                Some(
                    RequestProgress {
                        prompt_processed: (self.prompt_processed + token_count) as u32,
                        ..self
                    },
                )
            },
            ExecutionPhase::Decode => if self.generated_tokens + token_count > u32::MAX
                || self.decode_processed + token_count > u32::MAX {
                None
            } else {
                Some(
                    RequestProgress {
                        decode_processed: (self.decode_processed + token_count) as u32,
                        generated_tokens: (self.generated_tokens + token_count) as u32,
                        ..self
                    },
                )
            },
            _ => Some(self),
        }
    }

    /// The progress after an output token of a prefill, where it can be counted.
    pub open spec fn with_output(self) -> Option<RequestProgress> {
        if self.generated_tokens == u32::MAX {
            None
        } else {
            Some(
                RequestProgress { generated_tokens: (self.generated_tokens + 1) as u32, ..self },
            )
        }
    }

    #[must_use]
    pub fn new(prompt_tokens: u32) -> (r: Self)
        ensures
            r == RequestProgress::fresh(prompt_tokens),
    {
        RequestProgress { prompt_tokens, prompt_processed: 0, decode_processed: 0, generated_tokens: 0 }
    }

    #[must_use]
    pub fn prompt_tokens(self) -> (r: u32)
        ensures
            r == self.prompt_tokens,
    {
        self.prompt_tokens
    }

    #[must_use]
    pub fn prompt_processed(self) -> (r: u32)
        ensures
            r == self.prompt_processed,
    {
        self.prompt_processed
    }

    #[must_use]
    pub fn decode_processed(self) -> (r: u32)
        ensures
            r == self.decode_processed,
    {
        self.decode_processed
    }

    #[must_use]
    pub fn generated_tokens(self) -> (r: u32)
        ensures
            r == self.generated_tokens,
    {
        self.generated_tokens
    }

    /// Count committed work. Decode work commits output; speculative, encoder and expert
    /// work does not.
    ///
    /// # Errors
    /// Returns [`RequestSlotError::ProgressOverflow`] when counters overflow or prefill work
    /// exceeds the declared prompt length; nothing is counted then.
    pub fn record(&mut self, phase: ExecutionPhase, token_count: u32) -> (r: Result<
        (),
        RequestSlotError,
    >)
        ensures
            match old(self).recorded(phase, token_count) {
                Some(progress) => r is Ok && *final(self) == progress,
                None => r == Err::<(), RequestSlotError>(RequestSlotError::ProgressOverflow)
                    && *final(self) == *old(self),
            },
    {
        match phase {
            ExecutionPhase::Prefill => {
                match self.prompt_processed.checked_add(token_count) {
                    Some(next) => {
                        if next > self.prompt_tokens {
                            return Err(RequestSlotError::ProgressOverflow);
                        }
                        self.prompt_processed = next;
                    },
                    None => {
                        return Err(RequestSlotError::ProgressOverflow);
                    },
                }
            },
            ExecutionPhase::Decode => {
                let generated = self.generated_tokens.checked_add(token_count);
                let decoded = self.decode_processed.checked_add(token_count);
                match (generated, decoded) {
                    (Some(generated), Some(decoded)) => {
                        self.generated_tokens = generated;
                        self.decode_processed = decoded;
                    },
                    _ => {
                        return Err(RequestSlotError::ProgressOverflow);
                    },
                }
            },
            _ => {},
        }
        Ok(())
    }

    /// Count the output token that the last chunk of a prompt gave.
    ///
    /// # Errors
    /// Returns [`RequestSlotError::ProgressOverflow`] when the counter overflows.
    pub fn record_output(&mut self) -> (r: Result<(), RequestSlotError>)
        ensures
            match old(self).with_output() {
                Some(progress) => r is Ok && *final(self) == progress,
                None => r == Err::<(), RequestSlotError>(RequestSlotError::ProgressOverflow)
                    && *final(self) == *old(self),
            },
    {
        match self.generated_tokens.checked_add(1) {
            Some(next) => {
                self.generated_tokens = next;
                Ok(())
            },
            None => Err(RequestSlotError::ProgressOverflow),
        }
    }
}

/// A request that is resident in the serving runtime.
#[derive(Debug, PartialEq)]
pub struct ActiveRequestSlot {
    id: RequestSlotId,
    request: RequestSpec,
    state: Option<InferenceStateSet>,
    lifecycle: RequestLifecycle,
    progress: RequestProgress,
}

/// What a slot holds.
#[verifier::ext_equal]
pub struct SlotView {
    pub id: RequestSlotId,
    pub request: RequestSpecView,
    pub state: Option<Seq<StateHandle>>,
    pub lifecycle: RequestLifecycle,
    pub progress: RequestProgress,
}

impl View for ActiveRequestSlot {
    type V = SlotView;

    closed spec fn view(&self) -> SlotView {
        SlotView {
            id: self.id,
            request: self.request@,
            state: match self.state {
                Some(state) => Some(state@),
                None => None,
            },
            lifecycle: self.lifecycle,
            progress: self.progress,
        }
    }
}

impl Clone for ActiveRequestSlot {
    fn clone(&self) -> (r: Self)
        ensures
            r@ == self@,
    {
        let state: Option<InferenceStateSet> = match &self.state {
            Some(state) => Some(state.clone()),
            None => None,
        };
        ActiveRequestSlot {
            id: self.id,
            request: self.request.clone(),
            state,
            lifecycle: self.lifecycle,
            progress: self.progress,
        }
    }
}

impl SlotView {
    /// A request that was just admitted to a slot.
    pub open spec fn admitted(
        id: RequestSlotId,
        request: RequestSpecView,
        state: Seq<StateHandle>,
        prompt_tokens: u32,
    ) -> SlotView {
        SlotView {
            id,
            request,
            state: Some(state),
            lifecycle: RequestLifecycle::Waiting,
            progress: RequestProgress::fresh(prompt_tokens),
        }
    }

    /// The slot in another lifecycle.
    pub open spec fn entered(self, lifecycle: RequestLifecycle) -> SlotView {
        SlotView { lifecycle, ..self }
    }

    /// The slot in another lifecycle, its state taken out.
    pub open spec fn lent(self, lifecycle: RequestLifecycle) -> SlotView {
        SlotView { lifecycle, state: None, ..self }
    }

    /// The slot in another lifecycle, with a state of its own again.
    pub open spec fn restored(
        self,
        lifecycle: RequestLifecycle,
        state: Seq<StateHandle>,
    ) -> SlotView {
        SlotView { lifecycle, state: Some(state), ..self }
    }

    /// Why a completed step does not apply to the slot, if it does not.
    pub open spec fn step_defect(
        self,
        submission: BackendSubmissionId,
        phase: ExecutionPhase,
        token_count: u32,
    ) -> Option<RequestSlotError> {
        if self.state is Some {
            Some(RequestSlotError::StateUnavailable)
        } else if self.lifecycle == RequestLifecycle::InFlight(submission) {
            if self.progress.recorded(phase, token_count) is None {
                Some(RequestSlotError::ProgressOverflow)
            } else {
                None
            }
        } else if self.lifecycle == RequestLifecycle::Cancelling(submission) {
            None
        } else {
            Some(RequestSlotError::SubmissionMismatch)
        }
    }

    /// The slot after a completed step: runnable with its progress counted, or cancelled.
    pub open spec fn stepped(
        self,
        phase: ExecutionPhase,
        token_count: u32,
        state: Seq<StateHandle>,
    ) -> SlotView {
        if self.lifecycle is InFlight {
            SlotView {
                progress: self.progress.recorded(phase, token_count)->Some_0,
                ..self.restored(RequestLifecycle::Runnable, state)
            }
        } else {
            self.restored(RequestLifecycle::Cancelled, state)
        }
    }
}

impl ActiveRequestSlot {
    #[must_use]
    pub fn id(&self) -> (r: RequestSlotId)
        ensures
            r == self@.id,
    {
        self.id
    }

    #[must_use]
    pub fn request(&self) -> (r: &RequestSpec)
        ensures
            r@ == self@.request,
    {
        &self.request
    }

    #[must_use]
    pub fn state(&self) -> (r: Option<&InferenceStateSet>)
        ensures
            match self@.state {
                Some(state) => r is Some && r->Some_0@ == state,
                None => r is None,
            },
    {
        self.state.as_ref()
    }

    /// The state that the slot holds, for its owner to change.
    pub fn state_mut(&mut self) -> (r: Option<&mut InferenceStateSet>)
        ensures
            old(self)@.state is None ==> r is None && final(self)@ == old(self)@,
            old(self)@.state is Some ==> {
                &&& r is Some
                &&& r->Some_0@ == old(self)@.state->Some_0
                &&& final(self)@ == (SlotView {
                    state: Some(final(r->Some_0)@),
                    ..old(self)@
                })
            },
    {
        self.state.as_mut()
    }

    #[must_use]
    pub fn lifecycle(&self) -> (r: RequestLifecycle)
        ensures
            r == self@.lifecycle,
    {
        self.lifecycle
    }

    #[must_use]
    pub fn progress(&self) -> (r: RequestProgress)
        ensures
            r == self@.progress,
    {
        self.progress
    }

    /// # Errors
    /// Returns [`RequestSlotError::InvalidTransition`] unless the request is currently
    /// waiting and owns its state.
    pub fn make_runnable(&mut self) -> (r: Result<(), RequestSlotError>)
        ensures
            old(self)@.lifecycle is Waiting && old(self)@.state is Some ==> r is Ok && final(self)@
                == old(self)@.entered(RequestLifecycle::Runnable),
            !(old(self)@.lifecycle is Waiting && old(self)@.state is Some) ==> r == Err::<
                (),
                RequestSlotError,
            >(RequestSlotError::InvalidTransition) && final(self)@ == old(self)@,
    {
        if self.lifecycle != RequestLifecycle::Waiting || self.state.is_none() {
            return Err(RequestSlotError::InvalidTransition);
        }
        self.lifecycle = RequestLifecycle::Runnable;
        Ok(())
    }

    /// Transfer logical state out of the slot before backend submission.
    ///
    /// # Errors
    /// Returns [`RequestSlotError::InvalidTransition`] unless the request is runnable, then
    /// [`RequestSlotError::StateUnavailable`] unless it owns its state.
    pub fn prepare_submission(&mut self) -> (r: Result<InferenceStateSet, RequestSlotError>)
        ensures
            !(old(self)@.lifecycle is Runnable) ==> r == Err::<InferenceStateSet, RequestSlotError>(
                RequestSlotError::InvalidTransition,
            ) && final(self)@ == old(self)@,
            old(self)@.lifecycle is Runnable && old(self)@.state is None ==> r == Err::<
                InferenceStateSet,
                RequestSlotError,
            >(RequestSlotError::StateUnavailable) && final(self)@ == old(self)@,
            old(self)@.lifecycle is Runnable && old(self)@.state is Some ==> r is Ok && r->Ok_0@
                == old(self)@.state->Some_0 && final(self)@ == old(self)@.lent(
                RequestLifecycle::Submitting,
            ),
    {
        if self.lifecycle != RequestLifecycle::Runnable {
            return Err(RequestSlotError::InvalidTransition);
        }
        match self.state.take() {
            Some(state) => {
                self.lifecycle = RequestLifecycle::Submitting;
                Ok(state)
            },
            None => Err(RequestSlotError::StateUnavailable),
        }
    }

    /// Associate a successfully submitted request with backend ownership.
    ///
    /// # Errors
    /// Returns [`RequestSlotError::InvalidTransition`] unless the request is prepared and its
    /// logical state is outside the slot.
    pub fn confirm_submission(&mut self, submission: BackendSubmissionId) -> (r: Result<
        (),
        RequestSlotError,
    >)
        ensures
            old(self)@.lifecycle is Submitting && old(self)@.state is None ==> r is Ok
                && final(self)@ == old(self)@.entered(RequestLifecycle::InFlight(submission)),
            !(old(self)@.lifecycle is Submitting && old(self)@.state is None) ==> r == Err::<
                (),
                RequestSlotError,
            >(RequestSlotError::InvalidTransition) && final(self)@ == old(self)@,
    {
        if self.lifecycle != RequestLifecycle::Submitting || self.state.is_some() {
            return Err(RequestSlotError::InvalidTransition);
        }
        self.lifecycle = RequestLifecycle::InFlight(submission);
        Ok(())
    }

    /// Restore state after submission failed before backend ownership existed.
    ///
    /// # Errors
    /// Returns [`RequestSlotError::InvalidTransition`] unless the request is prepared and has
    /// no state in the slot.
    pub fn fail_prepared(&mut self, state: InferenceStateSet) -> (r: Result<(), RequestSlotError>)
        ensures
            old(self)@.lifecycle is Submitting && old(self)@.state is None ==> r is Ok
                && final(self)@ == old(self)@.restored(RequestLifecycle::Failed, state@),
            !(old(self)@.lifecycle is Submitting && old(self)@.state is None) ==> r == Err::<
                (),
                RequestSlotError,
            >(RequestSlotError::InvalidTransition) && final(self)@ == old(self)@,
    {
        if self.lifecycle != RequestLifecycle::Submitting || self.state.is_some() {
            return Err(RequestSlotError::InvalidTransition);
        }
        self.state = Some(state);
        self.lifecycle = RequestLifecycle::Failed;
        Ok(())
    }

    /// Cancel a request that no submission owns, or remember to cancel it once its
    /// submission completes.
    ///
    /// # Errors
    /// Returns [`RequestSlotError::InvalidTransition`] for terminal or transiently
    /// submitting requests.
    pub fn request_cancel(&mut self) -> (r: Result<(), RequestSlotError>)
        ensures
            match old(self)@.lifecycle {
                RequestLifecycle::Waiting | RequestLifecycle::Runnable => r is Ok && final(self)@
                    == old(self)@.entered(RequestLifecycle::Cancelled),
                RequestLifecycle::InFlight(submission)
                | RequestLifecycle::Cancelling(submission) => {
                    r is Ok
                        && final(self)@ == old(self)@.entered(RequestLifecycle::Cancelling(submission))
                },
                _ => r == Err::<(), RequestSlotError>(RequestSlotError::InvalidTransition)
                    && final(self)@ == old(self)@,
            },
    {
        match self.lifecycle {
            RequestLifecycle::Waiting | RequestLifecycle::Runnable => {
                self.lifecycle = RequestLifecycle::Cancelled;
            },
            RequestLifecycle::InFlight(submission) | RequestLifecycle::Cancelling(submission) => {
                self.lifecycle = RequestLifecycle::Cancelling(submission);
            },
            _ => {
                return Err(RequestSlotError::InvalidTransition);
            },
        }
        Ok(())
    }

    /// # Errors
    /// Returns [`RequestSlotError::InvalidTransition`] unless the request is runnable and
    /// owns its state.
    pub fn mark_completed(&mut self) -> (r: Result<(), RequestSlotError>)
        ensures
            old(self)@.lifecycle is Runnable && old(self)@.state is Some ==> r is Ok && final(self)@
                == old(self)@.entered(RequestLifecycle::Completed),
            !(old(self)@.lifecycle is Runnable && old(self)@.state is Some) ==> r == Err::<
                (),
                RequestSlotError,
            >(RequestSlotError::InvalidTransition) && final(self)@ == old(self)@,
    {
        if self.lifecycle != RequestLifecycle::Runnable || self.state.is_none() {
            return Err(RequestSlotError::InvalidTransition);
        }
        self.lifecycle = RequestLifecycle::Completed;
        Ok(())
    }

    /// # Errors
    /// Returns [`RequestSlotError::InvalidTransition`] while a backend submission still owns
    /// request state or after terminal completion.
    pub fn mark_failed(&mut self) -> (r: Result<(), RequestSlotError>)
        ensures
            (old(self)@.lifecycle is Waiting || old(self)@.lifecycle is Runnable) && old(self)@.state is Some ==> r is Ok && final(self)@ == old(self)@.entered(
                RequestLifecycle::Failed,
            ),
            !((old(self)@.lifecycle is Waiting || old(self)@.lifecycle is Runnable) && old(self)@.state is Some) ==> r == Err::<(), RequestSlotError>(
                RequestSlotError::InvalidTransition,
            ) && final(self)@ == old(self)@,
    {
        let idle: bool = self.lifecycle == RequestLifecycle::Waiting || self.lifecycle
            == RequestLifecycle::Runnable;
        if !idle || self.state.is_none() {
            return Err(RequestSlotError::InvalidTransition);
        }
        self.lifecycle = RequestLifecycle::Failed;
        Ok(())
    }

    /// Restore state after a backend submission reports terminal failure.
    ///
    /// # Errors
    /// Returns [`RequestSlotError::SubmissionMismatch`] when a different submission owns the
    /// slot.
    pub fn fail_submission(
        &mut self,
        submission: BackendSubmissionId,
        state: InferenceStateSet,
    ) -> (r: Result<(), RequestSlotError>)
        ensures
            old(self)@.lifecycle.owner() == Some(submission) && old(self)@.state is None ==> r is Ok
                && final(self)@ == old(self)@.restored(RequestLifecycle::Failed, state@),
            !(old(self)@.lifecycle.owner() == Some(submission) && old(self)@.state is None) ==> r
                == Err::<(), RequestSlotError>(RequestSlotError::SubmissionMismatch) && final(self)@
                == old(self)@,
    {
        if self.lifecycle.submission() != Some(submission) || self.state.is_some() {
            return Err(RequestSlotError::SubmissionMismatch);
        }
        self.state = Some(state);
        self.lifecycle = RequestLifecycle::Failed;
        Ok(())
    }

    /// Apply one completed backend step and restore scheduler-owned state. A request that is
    /// being cancelled ends here, its progress uncounted.
    ///
    /// # Errors
    /// Returns [`RequestSlotError`] when the completed work does not match the owning
    /// submission or progress cannot be advanced safely.
    pub fn complete_step(
        &mut self,
        submission: BackendSubmissionId,
        phase: ExecutionPhase,
        token_count: u32,
        state: InferenceStateSet,
    ) -> (r: Result<(), RequestSlotError>)
        ensures
            match old(self)@.step_defect(submission, phase, token_count) {
                Some(error) => {
                    r == Err::<(), RequestSlotError>(error) && final(self)@ == old(self)@
                },
                None => r is Ok && final(self)@ == old(self)@.stepped(phase, token_count, state@),
            },
    {
        if self.state.is_some() {
            return Err(RequestSlotError::StateUnavailable);
        }
        match self.lifecycle {
            RequestLifecycle::InFlight(actual) => {
                if actual != submission {
                    return Err(RequestSlotError::SubmissionMismatch);
                }
                let mut progress = self.progress;
                match progress.record(phase, token_count) {
                    Ok(()) => {},
                    Err(error) => {
                        return Err(error);
                    },
                }
                self.progress = progress;
                self.state = Some(state);
                self.lifecycle = RequestLifecycle::Runnable;
                Ok(())
            },
            RequestLifecycle::Cancelling(actual) => {
                if actual != submission {
                    return Err(RequestSlotError::SubmissionMismatch);
                }
                self.state = Some(state);
                self.lifecycle = RequestLifecycle::Cancelled;
                Ok(())
            },
            _ => Err(RequestSlotError::SubmissionMismatch),
        }
    }

    /// Count the output token that the last chunk of a prompt gave.
    ///
    /// # Errors
    /// Returns [`RequestSlotError::InvalidTransition`] unless the request is runnable, then
    /// [`RequestSlotError::ProgressOverflow`] when the counter overflows.
    pub fn record_output(&mut self) -> (r: Result<(), RequestSlotError>)
        ensures
            !(old(self)@.lifecycle is Runnable) ==> r == Err::<(), RequestSlotError>(
                RequestSlotError::InvalidTransition,
            ) && final(self)@ == old(self)@,
            old(self)@.lifecycle is Runnable ==> match old(self)@.progress.with_output() {
                Some(progress) => r is Ok && final(self)@ == (SlotView { progress, ..old(self)@ }),
                None => r == Err::<(), RequestSlotError>(RequestSlotError::ProgressOverflow)
                    && final(self)@ == old(self)@,
            },
    {
        if self.lifecycle != RequestLifecycle::Runnable {
            return Err(RequestSlotError::InvalidTransition);
        }
        let mut progress = self.progress;
        match progress.record_output() {
            Ok(()) => {
                self.progress = progress;
                Ok(())
            },
            Err(error) => Err(error),
        }
    }

    /// Take the state of a request that has ended.
    ///
    /// # Errors
    /// Returns [`RequestSlotError::RequestStillActive`] before the request has ended, or
    /// [`RequestSlotError::StateUnavailable`] once its state was taken.
    pub fn take_terminal_state(&mut self) -> (r: Result<InferenceStateSet, RequestSlotError>)
        ensures
            !old(self)@.lifecycle.terminal() ==> r == Err::<InferenceStateSet, RequestSlotError>(
                RequestSlotError::RequestStillActive,
            ) && final(self)@ == old(self)@,
            old(self)@.lifecycle.terminal() && old(self)@.state is None ==> r == Err::<
                InferenceStateSet,
                RequestSlotError,
            >(RequestSlotError::StateUnavailable) && final(self)@ == old(self)@,
            old(self)@.lifecycle.terminal() && old(self)@.state is Some ==> r is Ok && r->Ok_0@
                == old(self)@.state->Some_0 && final(self)@ == old(self)@.lent(
                old(self)@.lifecycle,
            ),
    {
        if !self.lifecycle.is_terminal() {
            return Err(RequestSlotError::RequestStillActive);
        }
        match self.state.take() {
            Some(state) => Ok(state),
            None => Err(RequestSlotError::StateUnavailable),
        }
    }
}

/// A refused admission, with the state that it hands back.
#[derive(Debug, PartialEq)]
pub struct AdmissionError<E> {
    error: E,
    state: InferenceStateSet,
}

impl<E> AdmissionError<E> {
    /// Why admission was refused.
    pub closed spec fn reason(self) -> E {
        self.error
    }

    /// The handles that are handed back.
    pub closed spec fn returned(self) -> Seq<StateHandle> {
        self.state@
    }

    #[must_use]
    pub fn new(error: E, state: InferenceStateSet) -> (r: Self)
        ensures
            r.reason() == error,
            r.returned() == state@,
    {
        AdmissionError { error, state }
    }

    #[must_use]
    pub fn error(&self) -> (r: &E)
        ensures
            *r == self.reason(),
    {
        &self.error
    }

    #[must_use]
    pub fn state(&self) -> (r: &InferenceStateSet)
        ensures
            r@ == self.returned(),
    {
        &self.state
    }

    #[must_use]
    pub fn into_parts(self) -> (r: (E, InferenceStateSet))
        ensures
            r.0 == self.reason(),
            r.1@ == self.returned(),
    {
        (self.error, self.state)
    }

    /// The same refusal under another error.
    #[must_use]
    pub fn map_error<F, M: FnOnce(E) -> F>(self, map: M) -> (r: AdmissionError<F>)
        requires
            map.requires((self.reason(),)),
        ensures
            map.ensures((self.reason(),), r.reason()),
            r.returned() == self.returned(),
    {
        AdmissionError { error: map(self.error), state: self.state }
    }
}

#[derive(Debug)]
struct SlotCell {
    generation: u32,
    value: Option<ActiveRequestSlot>,
}

/// One cell of the table: how often it was used, and by whom it is now.
#[verifier::ext_equal]
pub struct CellView {
    pub generation: u32,
    pub value: Option<SlotView>,
}

impl View for SlotCell {
    type V = CellView;

    closed spec fn view(&self) -> CellView {
        CellView {
            generation: self.generation,
            value: match self.value {
                Some(slot) => Some(slot@),
                None => None,
            },
        }
    }
}

/// A table of resident requests. A slot that is used again gets another generation, so
/// that stale identities do not resolve.
#[derive(Debug)]
pub struct RequestSlots {
    cells: Vec<SlotCell>,
    free: Vec<u32>,
}

/// What a table holds.
#[verifier::ext_equal]
pub struct RequestSlotsView {
    pub cells: Seq<CellView>,
    pub free: Seq<u32>,
}

impl View for RequestSlots {
    type V = RequestSlotsView;

    closed spec fn view(&self) -> RequestSlotsView {
        RequestSlotsView {
            cells: Seq::new(self.cells@.len(), |i: int| self.cells@[i]@),
            free: self.free@,
        }
    }
}

/// Cells of the first `n` that are in use.
pub open spec fn occupied_among(cells: Seq<CellView>, n: int) -> nat
    decreases n,
{
    if n <= 0 {
        0
    } else {
        occupied_among(cells, n - 1) + if cells[n - 1].value is Some {
            1nat
        } else {
            0nat
        }
    }
}

impl RequestSlotsView {
    /// An empty table.
    pub open spec fn empty() -> RequestSlotsView {
        RequestSlotsView { cells: Seq::empty(), free: Seq::empty() }
    }

    /// Every request knows its own slot, no request is resident twice, and the free list
    /// names unused cells, each once.
    pub open spec fn wf(self) -> bool {
        &&& self.cells.len() <= u32::MAX + 1
        &&& forall|i: int|
            0 <= i < self.cells.len() && (#[trigger] self.cells[i]).value is Some
                ==> self.cells[i].value->Some_0.id == (RequestSlotId {
                index: i as u32,
                generation: self.cells[i].generation,
            })
        &&& forall|i: int, j: int|
            0 <= i < j < self.cells.len() && (#[trigger] self.cells[i]).value is Some && (
            #[trigger] self.cells[j]).value is Some ==> self.cells[i].value->Some_0.request.id
                != self.cells[j].value->Some_0.request.id
        &&& forall|k: int|
            0 <= k < self.free.len() ==> (#[trigger] self.free[k]) < self.cells.len()
                && self.cells[self.free[k] as int].value is None
        &&& self.free.no_duplicates()
    }

    /// Whether an identity names a resident request.
    pub open spec fn resolves(self, id: RequestSlotId) -> bool {
        &&& id.index < self.cells.len()
        &&& self.cells[id.index as int].generation == id.generation
        &&& self.cells[id.index as int].value is Some
    }

    /// The request that an identity names.
    pub open spec fn slot(self, id: RequestSlotId) -> SlotView {
        self.cells[id.index as int].value->Some_0
    }

    /// The table with another value in a slot.
    pub open spec fn with_slot(self, id: RequestSlotId, slot: SlotView) -> RequestSlotsView {
        RequestSlotsView {
            cells: self.cells.update(
                id.index as int,
                CellView { generation: self.cells[id.index as int].generation, value: Some(slot) },
            ),
            free: self.free,
        }
    }

    /// How many requests are resident.
    pub open spec fn occupied(self) -> nat {
        occupied_among(self.cells, self.cells.len() as int)
    }

    /// Whether a request is resident.
    pub open spec fn has_request(self, request: RequestId) -> bool {
        exists|i: int|
            0 <= i < self.cells.len() && (#[trigger] self.cells[i]).value is Some
                && self.cells[i].value->Some_0.request.id == request
    }

    /// The cell that the next admission takes: the one freed last, or a new one.
    pub open spec fn next_index(self) -> int {
        if self.free.len() > 0 {
            self.free.last() as int
        } else {
            self.cells.len() as int
        }
    }

    /// The table after that cell was taken and before it is used.
    pub open spec fn claimed(self) -> RequestSlotsView {
        if self.free.len() > 0 {
            RequestSlotsView { cells: self.cells, free: self.free.drop_last() }
        } else {
            RequestSlotsView {
                cells: self.cells.push(CellView { generation: 0, value: None }),
                free: self.free,
            }
        }
    }

    /// The table after an insertion that found no usable cell: a free cell whose
    /// generations are used up is not offered again.
    pub open spec fn exhausted(self) -> RequestSlotsView {
        RequestSlotsView {
            free: if self.free.len() > 0 {
                self.free.drop_last()
            } else {
                self.free
            },
            ..self
        }
    }

    /// Whether a cell can be used for a request.
    pub open spec fn can_insert(self) -> bool {
        &&& self.next_index() <= u32::MAX
        &&& self.claimed().cells[self.next_index()].generation < u32::MAX
    }

    /// The identity that the next admission gets.
    pub open spec fn next_id(self) -> RequestSlotId {
        RequestSlotId {
            index: self.next_index() as u32,
            generation: (self.claimed().cells[self.next_index()].generation + 1) as u32,
        }
    }

    /// The table after an admission.
    pub open spec fn inserted(
        self,
        request: RequestSpecView,
        state: Seq<StateHandle>,
        prompt_tokens: u32,
    ) -> RequestSlotsView {
        let id = self.next_id();
        RequestSlotsView {
            cells: self.claimed().cells.update(
                self.next_index(),
                CellView {
                    generation: id.generation,
                    value: Some(SlotView::admitted(id, request, state, prompt_tokens)),
                },
            ),
            free: self.claimed().free,
        }
    }

    /// The table after a request left its slot.
    pub open spec fn removed(self, id: RequestSlotId) -> RequestSlotsView {
        RequestSlotsView {
            cells: self.cells.update(
                id.index as int,
                CellView { generation: self.cells[id.index as int].generation, value: None },
            ),
            free: self.free.push(id.index),
        }
    }

    /// Why a request cannot leave its slot, if it cannot.
    pub open spec fn removal_defect(self, id: RequestSlotId) -> Option<RequestSlotError> {
        if !self.resolves(id) {
            Some(RequestSlotError::UnknownSlot)
        } else if !self.slot(id).lifecycle.terminal() {
            Some(RequestSlotError::RequestStillActive)
        } else if self.slot(id).state is None {
            Some(RequestSlotError::StateUnavailable)
        } else {
            None
        }
    }
}

proof fn lemma_occupied_same(a: Seq<CellView>, b: Seq<CellView>, n: int)
    requires
        n <= a.len(),
        n <= b.len(),
        forall|i: int|
            0 <= i < n ==> ((#[trigger] a[i]).value is Some) == ((#[trigger] b[i]).value is Some),
    ensures
        occupied_among(a, n) == occupied_among(b, n),
    decreases n,
{
    if n > 0 {
        lemma_occupied_same(a, b, n - 1);
        assert((a[n - 1].value is Some) == (b[n - 1].value is Some));
    }
}

proof fn lemma_occupied_update(cells: Seq<CellView>, index: int, cell: CellView, n: int)
    requires
        0 <= index < n <= cells.len(),
        cells[index].value is Some != cell.value is Some,
    ensures
        cell.value is Some ==> occupied_among(cells.update(index, cell), n) == occupied_among(
            cells,
            n,
        ) + 1,
        cell.value is None ==> occupied_among(cells.update(index, cell), n) + 1 == occupied_among(
            cells,
            n,
        ),
    decreases n,
{
    let changed = cells.update(index, cell);
    if index == n - 1 {
        lemma_occupied_same(cells, changed, n - 1);
    } else {
        lemma_occupied_update(cells, index, cell, n - 1);
    }
}

/// Changing a resident request keeps the table well formed and its size, and what every
/// other identity names.
pub proof fn lemma_with_slot(table: RequestSlotsView, id: RequestSlotId, slot: SlotView)
    requires
        table.wf(),
        table.resolves(id),
        slot.id == id,
        slot.request.id == table.slot(id).request.id,
    ensures
        table.with_slot(id, slot).wf(),
        table.with_slot(id, slot).occupied() == table.occupied(),
        table.with_slot(id, slot).slot(id) == slot,
        forall|other: RequestSlotId|
            #![trigger table.with_slot(id, slot).resolves(other)]
            table.with_slot(id, slot).resolves(other) == table.resolves(other),
        forall|other: RequestSlotId|
            #![trigger table.with_slot(id, slot).slot(other)]
            other != id && table.resolves(other) ==> table.with_slot(id, slot).slot(other)
                == table.slot(other),
        forall|request: RequestId|
            #![trigger table.with_slot(id, slot).has_request(request)]
            table.with_slot(id, slot).has_request(request) == table.has_request(request),
{
    let changed = table.with_slot(id, slot);
    lemma_occupied_same(table.cells, changed.cells, table.cells.len() as int);
    assert forall|request: RequestId|
        #![trigger changed.has_request(request)]
        changed.has_request(request) == table.has_request(request) by {
        if table.has_request(request) {
            let i = choose|i: int|
                0 <= i < table.cells.len() && (#[trigger] table.cells[i]).value is Some
                    && table.cells[i].value->Some_0.request.id == request;
            assert(changed.cells[i].value is Some);
        }
        if changed.has_request(request) {
            let i = choose|i: int|
                0 <= i < changed.cells.len() && (#[trigger] changed.cells[i]).value is Some
                    && changed.cells[i].value->Some_0.request.id == request;
            assert(table.cells[i].value is Some);
        }
    }
}

/// An admission keeps the table well formed, adds one request, and changes nothing that
/// another identity names.
pub proof fn lemma_inserted(
    table: RequestSlotsView,
    request: RequestSpecView,
    state: Seq<StateHandle>,
    prompt_tokens: u32,
)
    requires
        table.wf(),
        table.can_insert(),
        !table.has_request(request.id),
    ensures
        ({
            let grown = table.inserted(request, state, prompt_tokens);
            let id = table.next_id();
            &&& grown.wf()
            &&& grown.occupied() == table.occupied() + 1
            &&& !table.resolves(id)
            &&& grown.resolves(id)
            &&& grown.slot(id) == SlotView::admitted(id, request, state, prompt_tokens)
            &&& forall|other: RequestSlotId|
                #![trigger grown.resolves(other)]
                other != id ==> grown.resolves(other) == table.resolves(other)
            &&& forall|other: RequestSlotId|
                #![trigger grown.slot(other)]
                table.resolves(other) ==> grown.slot(other) == table.slot(other)
        }),
{
    let grown = table.inserted(request, state, prompt_tokens);
    let id = table.next_id();
    let index = table.next_index();
    let claimed = table.claimed();
    let cell = CellView {
        generation: id.generation,
        value: Some(SlotView::admitted(id, request, state, prompt_tokens)),
    };
    if table.free.len() > 0 {
        assert(table.free[table.free.len() - 1] == table.free.last());
        assert(table.cells[index].value is None);
        lemma_occupied_update(table.cells, index, cell, table.cells.len() as int);
        assert forall|k: int| 0 <= k < grown.free.len() implies (#[trigger] grown.free[k])
            < grown.cells.len() && grown.cells[grown.free[k] as int].value is None by {
            assert(grown.free[k] == table.free[k]);
            assert(table.free[k] != table.free[table.free.len() - 1]);
        }
        assert(grown.free.no_duplicates()) by {
            assert forall|a: int, b: int|
                0 <= a < grown.free.len() && 0 <= b < grown.free.len() && a != b implies grown.free[a]
                != grown.free[b] by {
                assert(table.free[a] != table.free[b]);
            }
        }
    } else {
        lemma_occupied_same(table.cells, claimed.cells, table.cells.len() as int);
        lemma_occupied_update(claimed.cells, index, cell, claimed.cells.len() as int);
    }
    assert forall|i: int, j: int|
        0 <= i < j < grown.cells.len() && (#[trigger] grown.cells[i]).value is Some && (
        #[trigger] grown.cells[j]).value is Some implies grown.cells[i].value->Some_0.request.id
        != grown.cells[j].value->Some_0.request.id by {
        if i == index {
            assert(table.cells[j].value is Some);
        } else if j == index {
            assert(table.cells[i].value is Some);
        } else {
            assert(table.cells[i].value is Some && table.cells[j].value is Some);
        }
    }
}

/// A removal keeps the table well formed, takes one request out, and changes nothing that
/// another identity names.
pub proof fn lemma_removed(table: RequestSlotsView, id: RequestSlotId)
    requires
        table.wf(),
        table.resolves(id),
    ensures
        table.removed(id).wf(),
        table.removed(id).occupied() + 1 == table.occupied(),
        !table.removed(id).resolves(id),
        !table.removed(id).has_request(table.slot(id).request.id),
        forall|other: RequestSlotId|
            #![trigger table.removed(id).resolves(other)]
            other != id ==> table.removed(id).resolves(other) == table.resolves(other),
        forall|other: RequestSlotId|
            #![trigger table.removed(id).slot(other)]
            other != id && table.resolves(other) ==> table.removed(id).slot(other) == table.slot(
                other,
            ),
{
    let smaller = table.removed(id);
    let cell = CellView { generation: id.generation, value: None };
    lemma_occupied_update(table.cells, id.index as int, cell, table.cells.len() as int);
    assert forall|k: int| 0 <= k < smaller.free.len() implies (#[trigger] smaller.free[k])
        < smaller.cells.len() && smaller.cells[smaller.free[k] as int].value is None by {
        if k < table.free.len() {
            assert(smaller.free[k] == table.free[k]);
        }
    }
    assert(smaller.free.no_duplicates()) by {
        assert forall|a: int, b: int|
            0 <= a < smaller.free.len() && 0 <= b < smaller.free.len() && a
                != b implies smaller.free[a] != smaller.free[b] by {
            if a < table.free.len() {
                assert(smaller.free[a] == table.free[a]);
            }
            if b < table.free.len() {
                assert(smaller.free[b] == table.free[b]);
            }
        }
    }
}

impl Default for RequestSlots {
    fn default() -> (r: Self)
        ensures
            r@ == RequestSlotsView::empty(),
            r@.wf(),
            r@.occupied() == 0,
    {
        let r = RequestSlots { cells: Vec::new(), free: Vec::new() };
        assert(r@ =~= RequestSlotsView::empty());
        r
    }
}

impl RequestSlots {
    /// How many requests are resident.
    #[must_use]
    pub fn len(&self) -> (r: usize)
        ensures
            r == self@.occupied(),
    {
        let mut count: usize = 0;
        let mut index: usize = 0;
        while index < self.cells.len()
            invariant
                index <= self.cells@.len(),
                count <= index,
                count == occupied_among(self@.cells, index as int),
            decreases self.cells.len() - index,
        {
            assert(self@.cells[index as int] == self.cells@[index as int]@);
            if self.cells[index].value.is_some() {
                count += 1;
            }
            index += 1;
        }
        count
    }

    #[must_use]
    pub fn is_empty(&self) -> (r: bool)
        ensures
            r == (self@.occupied() == 0),
    {
        self.len() == 0
    }

    /// The slot of a resident request.
    #[must_use]
    pub fn find(&self, request: RequestId) -> (r: Option<RequestSlotId>)
        requires
            self@.wf(),
        ensures
            match r {
                Some(id) => self@.resolves(id) && self@.slot(id).request.id == request,
                None => !self@.has_request(request),
            },
            r is Some == self@.has_request(request),
    {
        let mut index: usize = 0;
        while index < self.cells.len()
            invariant
                index <= self.cells@.len(),
                self@.wf(),
                forall|i: int|
                    0 <= i < index && (#[trigger] self@.cells[i]).value is Some
                        ==> self@.cells[i].value->Some_0.request.id != request,
            decreases self.cells.len() - index,
        {
            assert(self@.cells[index as int] == self.cells@[index as int]@);
            if let Some(slot) = &self.cells[index].value {
                if slot.request().id() == request {
                    return Some(slot.id());
                }
            }
            index += 1;
        }
        None
    }

    /// Admit a request to a slot of its own.
    ///
    /// # Errors
    /// Returns [`RequestSlotError::DuplicateRequest`] when the request is already resident
    /// or [`RequestSlotError::SlotOverflow`] when the table cannot represent another stable
    /// slot. A cell whose generations are used up is not offered again.
    pub fn insert(
        &mut self,
        request: RequestSpec,
        state: InferenceStateSet,
        prompt_tokens: u32,
    ) -> (r: Result<RequestSlotId, AdmissionError<RequestSlotError>>)
        requires
            old(self)@.wf(),
        ensures
            final(self)@.wf(),
            old(self)@.has_request(request@.id) ==> r is Err && r->Err_0.reason()
                == RequestSlotError::DuplicateRequest(request@.id) && r->Err_0.returned() == state@
                && final(self)@ == old(self)@,
            !old(self)@.has_request(request@.id) && !old(self)@.can_insert() ==> r is Err
                && r->Err_0.reason() == RequestSlotError::SlotOverflow && r->Err_0.returned()
                == state@ && final(self)@ == old(self)@.exhausted(),
            !old(self)@.has_request(request@.id) && old(self)@.can_insert() ==> r is Ok && r->Ok_0
                == old(self)@.next_id() && final(self)@ == old(self)@.inserted(
                request@,
                state@,
                prompt_tokens,
            ),
    {
        if self.find(request.id()).is_some() {
            return Err(
                AdmissionError::new(RequestSlotError::DuplicateRequest(request.id()), state),
            );
        }
        let ghost before = self@;
        let index: usize = match self.free.pop() {
            Some(index) => {
                assert(before.free[before.free.len() - 1] == index);
                index as usize
            },
            None => self.cells.len(),
        };
        if index as u64 > u32::MAX as u64 {
            assert(self@.free =~= before.free);
            return Err(AdmissionError::new(RequestSlotError::SlotOverflow, state));
        }
        let generation: u32 = if index < self.cells.len() {
            self.cells[index].generation
        } else {
            0
        };
        proof {
            if index < self.cells@.len() {
                assert(before.cells[index as int] == self.cells@[index as int]@);
            }
        }
        if generation == u32::MAX {
            proof {
                assert(self@.cells =~= before.cells);
                assert(self@.free =~= before.free.drop_last());
                assert forall|a: int, b: int|
                    0 <= a < self@.free.len() && 0 <= b < self@.free.len() && a
                        != b implies self@.free[a] != self@.free[b] by {
                    assert(before.free[a] != before.free[b]);
                }
                assert forall|k: int| 0 <= k < self@.free.len() implies (#[trigger] self@.free[k])
                    < self@.cells.len() && self@.cells[self@.free[k] as int].value is None by {
                    assert(self@.free[k] == before.free[k]);
                }
            }
            return Err(AdmissionError::new(RequestSlotError::SlotOverflow, state));
        }
        let id = RequestSlotId { index: index as u32, generation: generation + 1 };
        let ghost slot = SlotView::admitted(id, request@, state@, prompt_tokens);
        let cell = SlotCell {
            generation: generation + 1,
            value: Some(
                ActiveRequestSlot {
                    id,
                    request,
                    state: Some(state),
                    lifecycle: RequestLifecycle::Waiting,
                    progress: RequestProgress::new(prompt_tokens),
                },
            ),
        };
        if index < self.cells.len() {
            self.cells.set(index, cell);
        } else {
            self.cells.push(cell);
        }
        proof {
            lemma_inserted(before, slot.request, slot.state->Some_0, prompt_tokens);
            let grown = before.inserted(slot.request, slot.state->Some_0, prompt_tokens);
            assert(self@.cells =~= grown.cells);
            assert(self@.free =~= grown.free);
        }
        Ok(id)
    }

    /// The request that an identity names.
    #[must_use]
    pub fn get(&self, id: RequestSlotId) -> (r: Option<&ActiveRequestSlot>)
        ensures
            self@.resolves(id) ==> r is Some && r->Some_0@ == self@.slot(id),
            !self@.resolves(id) ==> r is None,
    {
        if id.index as usize >= self.cells.len() {
            return None;
        }
        let cell = &self.cells[id.index as usize];
        assert(self@.cells[id.index as int] == cell@);
        if cell.generation != id.generation {
            return None;
        }
        cell.value.as_ref()
    }

    /// The request that an identity names, to change it.
    #[must_use]
    pub fn get_mut(&mut self, id: RequestSlotId) -> (r: Option<&mut ActiveRequestSlot>)
        ensures
            !old(self)@.resolves(id) ==> r is None && final(self)@ == old(self)@,
            old(self)@.resolves(id) ==> r is Some && r->Some_0@ == old(self)@.slot(id)
                && final(self)@ == old(self)@.with_slot(id, final(r->Some_0)@),
    {
        if id.index as usize >= self.cells.len() {
            return None;
        }
        let cell = &mut self.cells[id.index as usize];
        if cell.generation != id.generation {
            return None;
        }
        cell.value.as_mut()
    }

    /// Take a request that has ended out of its slot.
    ///
    /// # Errors
    /// Returns [`RequestSlotError::UnknownSlot`] for a stale or unknown slot,
    /// [`RequestSlotError::RequestStillActive`] before the request reaches a terminal state,
    /// or [`RequestSlotError::StateUnavailable`] when its state is elsewhere.
    pub fn remove(&mut self, id: RequestSlotId) -> (r: Result<ActiveRequestSlot, RequestSlotError>)
        requires
            old(self)@.wf(),
        ensures
            final(self)@.wf(),
            match old(self)@.removal_defect(id) {
                Some(error) => {
                    r == Err::<ActiveRequestSlot, RequestSlotError>(error)
                        && final(self)@ == old(self)@
                },
                None => {
                    r is Ok && r->Ok_0@ == old(self)@.slot(id)
                        && final(self)@ == old(self)@.removed(id)
                },
            },
    {
        let ghost before = self@;
        match self.get(id) {
            None => {
                return Err(RequestSlotError::UnknownSlot);
            },
            Some(slot) => {
                if !slot.lifecycle().is_terminal() {
                    return Err(RequestSlotError::RequestStillActive);
                }
                if slot.state().is_none() {
                    return Err(RequestSlotError::StateUnavailable);
                }
            },
        }
        let index: usize = id.index as usize;
        assert(before.cells[index as int] == self.cells@[index as int]@);
        let generation: u32 = self.cells[index].generation;
        let mut cell = SlotCell { generation, value: None };
        core::mem::swap(&mut self.cells[index], &mut cell);
        self.free.push(id.index);
        proof {
            lemma_removed(before, id);
            assert(self@.cells =~= before.removed(id).cells);
        }
        match cell.value {
            Some(slot) => Ok(slot),
            None => Err(RequestSlotError::UnknownSlot),
        }
    }
}

#[derive(Clone, Copy, Debug, Hash, PartialEq, Eq, Structural)]
pub enum RequestSlotError {
    DuplicateRequest(RequestId),
    UnknownSlot,
    SlotOverflow,
    InvalidTransition,
    SubmissionMismatch,
    StateUnavailable,
    ProgressOverflow,
    RequestStillActive,
}

/// What can be done to a table of requests.
pub enum SlotOp {
    Insert { request: RequestSpecView, state: Seq<StateHandle>, prompt_tokens: u32 },
    Remove(RequestSlotId),
    Change(RequestSlotId, SlotView),
}

impl RequestSlotsView {
    /// Whether every cell that the table offers is one of its own, as it is in a well-formed
    /// table.
    pub open spec fn offers_own_cells(self) -> bool {
        forall|k: int| 0 <= k < self.free.len() ==> (#[trigger] self.free[k]) < self.cells.len()
    }

    /// The table after an operation, which leaves it as it was where it is refused for its
    /// request or identity.
    pub open spec fn applied(self, op: SlotOp) -> RequestSlotsView {
        match op {
            SlotOp::Insert { request, state, prompt_tokens } => if self.has_request(request.id) {
                self
            } else if self.can_insert() {
                self.inserted(request, state, prompt_tokens)
            } else {
                self.exhausted()
            },
            SlotOp::Remove(id) => match self.removal_defect(id) {
                Some(_) => self,
                None => self.removed(id),
            },
            SlotOp::Change(id, slot) => if self.resolves(id) {
                self.with_slot(id, slot)
            } else {
                self
            },
        }
    }

    /// The identity that an operation issues, if it issues one.
    pub open spec fn issues(self, op: SlotOp) -> Option<RequestSlotId> {
        match op {
            SlotOp::Insert { request, .. } => if !self.has_request(request.id)
                && self.can_insert() {
                Some(self.next_id())
            } else {
                None
            },
            _ => None,
        }
    }

    /// Whether an identity may have been issued: its cell has reached its generation.
    pub open spec fn reached(self, id: RequestSlotId) -> bool {
        &&& id.index < self.cells.len()
        &&& id.generation <= self.cells[id.index as int].generation
    }
}

/// A table after operations, in their order.
pub open spec fn slot_history(table: RequestSlotsView, ops: Seq<SlotOp>) -> RequestSlotsView
    decreases ops.len(),
{
    if ops.len() == 0 {
        table
    } else {
        slot_history(table, ops.drop_last()).applied(ops.last())
    }
}

/// The identities that operations issued, in their order.
pub open spec fn issued_ids(table: RequestSlotsView, ops: Seq<SlotOp>) -> Seq<RequestSlotId>
    decreases ops.len(),
{
    if ops.len() == 0 {
        Seq::empty()
    } else {
        let earlier = issued_ids(table, ops.drop_last());
        match slot_history(table, ops.drop_last()).issues(ops.last()) {
            Some(id) => earlier.push(id),
            None => earlier,
        }
    }
}

/// An operation issues no identity that may have been issued before, and takes back no
/// generation; an identity that does not resolve resolves after it only if it was issued by
/// it.
proof fn lemma_operation_advances(table: RequestSlotsView, op: SlotOp, id: RequestSlotId)
    requires
        table.offers_own_cells(),
    ensures
        table.applied(op).offers_own_cells(),
        table.reached(id) ==> table.applied(op).reached(id) && table.issues(op) != Some(id),
        table.issues(op) == Some(id) ==> table.applied(op).reached(id),
        table.reached(id) && !table.resolves(id) ==> !table.applied(op).resolves(id),
{
    let after = table.applied(op);
    match op {
        SlotOp::Insert { request, state, prompt_tokens } => {
            if table.free.len() > 0 {
                assert(table.free[table.free.len() - 1] < table.cells.len());
            }
            assert forall|k: int| 0 <= k < after.free.len() implies (#[trigger] after.free[k])
                < after.cells.len() by {
                assert(after.free[k] == table.free[k]);
            }
        },
        SlotOp::Remove(gone) => {
            assert forall|k: int| 0 <= k < after.free.len() implies (#[trigger] after.free[k])
                < after.cells.len() by {
                if k < table.free.len() {
                    assert(after.free[k] == table.free[k]);
                }
            }
        },
        SlotOp::Change(..) => {},
    }
}

/// A sequence of operations keeps what each of them keeps.
proof fn lemma_history_advances(table: RequestSlotsView, ops: Seq<SlotOp>, id: RequestSlotId)
    requires
        table.offers_own_cells(),
    ensures
        slot_history(table, ops).offers_own_cells(),
        table.reached(id) ==> slot_history(table, ops).reached(id) && !issued_ids(
            table,
            ops,
        ).contains(id),
        issued_ids(table, ops).contains(id) ==> slot_history(table, ops).reached(id),
        table.reached(id) && !table.resolves(id) ==> !slot_history(table, ops).resolves(id),
    decreases ops.len(),
{
    if ops.len() > 0 {
        let earlier = ops.drop_last();
        let middle = slot_history(table, earlier);
        lemma_history_advances(table, earlier, id);
        lemma_operation_advances(middle, ops.last(), id);
        let before = issued_ids(table, earlier);
        let after = issued_ids(table, ops);
        if after.contains(id) {
            let k = choose|k: int| 0 <= k < after.len() && after[k] == id;
            if k < before.len() {
                assert(before[k] == id);
            }
        }
    }
}

/// An identity whose request left its slot never resolves again, whatever requests are
/// admitted, changed and removed before and after it, and it is not issued again.
pub proof fn law_stale_identities_do_not_resolve(
    table: RequestSlotsView,
    earlier: Seq<SlotOp>,
    id: RequestSlotId,
    later: Seq<SlotOp>,
)
    requires
        table.wf(),
        slot_history(table, earlier).removal_defect(id) is None,
    ensures
        !slot_history(slot_history(table, earlier).removed(id), later).resolves(id),
        !issued_ids(slot_history(table, earlier).removed(id), later).contains(id),
{
    let middle = slot_history(table, earlier);
    lemma_history_advances(table, earlier, id);
    lemma_operation_advances(middle, SlotOp::Remove(id), id);
    lemma_history_advances(middle.removed(id), later, id);
}

/// No identity is issued twice, and none that names a resident request is issued at all,
/// whatever requests are admitted, changed and removed.
pub proof fn law_identities_are_issued_once(table: RequestSlotsView, ops: Seq<SlotOp>)
    requires
        table.wf(),
    ensures
        issued_ids(table, ops).no_duplicates(),
        forall|id: RequestSlotId| #[trigger]
            table.resolves(id) ==> !issued_ids(table, ops).contains(id),
    decreases ops.len(),
{
    assert forall|id: RequestSlotId| #[trigger] table.resolves(id) implies !issued_ids(
        table,
        ops,
    ).contains(id) by {
        lemma_history_advances(table, ops, id);
    }
    if ops.len() > 0 {
        let earlier = ops.drop_last();
        let middle = slot_history(table, earlier);
        law_identities_are_issued_once(table, earlier);
        match middle.issues(ops.last()) {
            Some(id) => {
                lemma_history_advances(table, earlier, id);
                lemma_operation_advances(middle, ops.last(), id);
                let before = issued_ids(table, earlier);
                assert(!before.contains(id));
                assert forall|i: int, j: int|
                    0 <= i < before.len() + 1 && 0 <= j < before.len() + 1 && i
                        != j implies before.push(id)[i] != before.push(id)[j] by {
                    if i < before.len() {
                        assert(before.contains(before[i]));
                    }
                    if j < before.len() {
                        assert(before.contains(before[j]));
                    }
                }
            },
            None => {},
        }
    }
}

/// A request that was admitted is found under the identity it got, waiting and with its
/// state, and no request that was resident before is affected.
pub proof fn law_admission_is_found_again(
    table: RequestSlotsView,
    request: RequestSpecView,
    state: Seq<StateHandle>,
    prompt_tokens: u32,
    other: RequestSlotId,
)
    requires
        table.wf(),
        table.can_insert(),
        !table.has_request(request.id),
        table.resolves(other),
    ensures
        table.inserted(request, state, prompt_tokens).resolves(table.next_id()),
        table.inserted(request, state, prompt_tokens).slot(table.next_id()) == SlotView::admitted(
            table.next_id(),
            request,
            state,
            prompt_tokens,
        ),
        table.inserted(request, state, prompt_tokens).resolves(other),
        table.inserted(request, state, prompt_tokens).slot(other) == table.slot(other),
{
    lemma_inserted(table, request, state, prompt_tokens);
}

/// Work that is not decoded or prefilled commits no output.
pub proof fn law_speculative_work_commits_no_output(
    progress: RequestProgress,
    phase: ExecutionPhase,
    token_count: u32,
)
    requires
        phase is SpecDraft || phase is SpecVerify || phase is Encoder || phase is MoEExpert,
    ensures
        progress.recorded(phase, token_count) == Some(progress),
{
}

} // verus!
