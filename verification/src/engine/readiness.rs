//! Explicit readiness state for runtime startup.

use vstd::prelude::*;

verus! {

#[derive(Clone, Copy, Debug, Hash, PartialEq, Eq, Structural)]
pub enum ReadinessState {
    Created,
    Loading,
    Preparing,
    Warming,
    Ready,
    Failed,
}

impl ReadinessState {
    #[must_use]
    pub fn can_serve(self) -> (r: bool)
        ensures
            r == (self is Ready),
    {
        matches!(self, ReadinessState::Ready)
    }
}

/// Whether startup may move from one state to another: one step forward, past warming
/// where none is needed, or into failure before it is ready.
pub open spec fn follows(from: ReadinessState, to: ReadinessState) -> bool {
    match from {
        ReadinessState::Created => to is Loading || to is Failed,
        ReadinessState::Loading => to is Preparing || to is Failed,
        ReadinessState::Preparing => to is Warming || to is Ready || to is Failed,
        ReadinessState::Warming => to is Ready || to is Failed,
        ReadinessState::Ready => false,
        ReadinessState::Failed => false,
    }
}

/// The startup state of one runtime.
#[derive(Clone, Copy, Debug, Hash, PartialEq, Eq, Structural)]
pub struct RuntimeReadiness {
    state: ReadinessState,
}

impl View for RuntimeReadiness {
    type V = ReadinessState;

    closed spec fn view(&self) -> ReadinessState {
        self.state
    }
}

impl Default for RuntimeReadiness {
    fn default() -> (r: Self)
        ensures
            r@ == ReadinessState::Created,
    {
        RuntimeReadiness { state: ReadinessState::Created }
    }
}

impl RuntimeReadiness {
    #[must_use]
    pub fn state(self) -> (r: ReadinessState)
        ensures
            r == self@,
    {
        self.state
    }

    #[must_use]
    pub fn can_serve(self) -> (r: bool)
        ensures
            r == (self@ is Ready),
    {
        self.state.can_serve()
    }

    /// # Errors
    /// Returns [`ReadinessError::InvalidTransition`] when startup would move backward or
    /// leave a terminal state; the state is then unchanged.
    pub fn transition(&mut self, next: ReadinessState) -> (r: Result<(), ReadinessError>)
        ensures
            follows(old(self)@, next) ==> r is Ok && final(self)@ == next,
            !follows(old(self)@, next) ==> r == Err::<(), ReadinessError>(
                ReadinessError::InvalidTransition,
            ) && final(self)@ == old(self)@,
    {
        let valid: bool = match self.state {
            ReadinessState::Created => matches!(
                next,
                ReadinessState::Loading | ReadinessState::Failed
            ),
            ReadinessState::Loading => matches!(
                next,
                ReadinessState::Preparing | ReadinessState::Failed
            ),
            ReadinessState::Preparing => matches!(
                next,
                ReadinessState::Warming | ReadinessState::Ready | ReadinessState::Failed
            ),
            ReadinessState::Warming => matches!(
                next,
                ReadinessState::Ready | ReadinessState::Failed
            ),
            ReadinessState::Ready => false,
            ReadinessState::Failed => false,
        };
        if !valid {
            return Err(ReadinessError::InvalidTransition);
        }
        self.state = next;
        Ok(())
    }
}

#[derive(Clone, Copy, Debug, Hash, PartialEq, Eq, Structural)]
pub enum ReadinessError {
    InvalidTransition,
}

/// The state after a list of requested transitions, those that are refused left out.
pub open spec fn after(state: ReadinessState, requested: Seq<ReadinessState>) -> ReadinessState
    decreases requested.len(),
{
    if requested.len() == 0 {
        state
    } else {
        let earlier = after(state, requested.drop_last());
        if follows(earlier, requested.last()) {
            requested.last()
        } else {
            earlier
        }
    }
}

/// A runtime that is ready, or that has failed, stays so whatever is requested.
pub proof fn law_terminal_states_are_kept(state: ReadinessState, requested: Seq<ReadinessState>)
    requires
        state is Ready || state is Failed,
    ensures
        after(state, requested) == state,
    decreases requested.len(),
{
    if requested.len() > 0 {
        law_terminal_states_are_kept(state, requested.drop_last());
    }
}

/// A runtime serves only after it was prepared: one that starts out created and is ready
/// was asked to prepare before.
pub proof fn law_readiness_follows_preparation(requested: Seq<ReadinessState>)
    requires
        after(ReadinessState::Created, requested) is Ready,
    ensures
        requested.contains(ReadinessState::Preparing),
{
    lemma_prepared(requested);
}

proof fn lemma_prepared(requested: Seq<ReadinessState>)
    ensures
        after(ReadinessState::Created, requested) is Preparing || after(
            ReadinessState::Created,
            requested,
        ) is Warming || after(ReadinessState::Created, requested) is Ready ==> requested.contains(
            ReadinessState::Preparing,
        ),
    decreases requested.len(),
{
    if requested.len() > 0 {
        let earlier = requested.drop_last();
        lemma_prepared(earlier);
        if earlier.contains(ReadinessState::Preparing) {
            let at = choose|at: int|
                0 <= at < earlier.len() && earlier[at] == ReadinessState::Preparing;
            assert(requested[at] == ReadinessState::Preparing);
        }
        assert(requested[requested.len() - 1] == requested.last());
    }
}

/// How far preparation has come in a state that has not failed.
pub open spec fn stage_of(state: ReadinessState) -> int {
    match state {
        ReadinessState::Created => 0,
        ReadinessState::Loading => 1,
        ReadinessState::Preparing => 2,
        ReadinessState::Warming => 3,
        ReadinessState::Ready => 4,
        ReadinessState::Failed => -1,
    }
}

/// Preparation goes on one stage at a time, with warming left out at will, and may fail at any
/// stage before it ends; nothing else follows.
pub proof fn law_preparation_goes_on_by_stages(from: ReadinessState, to: ReadinessState)
    ensures
        follows(from, to) <==> !(from is Ready) && !(from is Failed) && (to is Failed || stage_of(
            to,
        ) == stage_of(from) + 1 || (from is Preparing && to is Ready)),
{
}

} // verus!
