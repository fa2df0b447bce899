//! What the batch runtime's errors say.

use crate::batch::executor::RuntimeError;
use crate::text::{decimal, number};
use vstd::prelude::*;

verus! {

impl<E> RuntimeError<E> {
    /// What a runtime error says; `source` is what the executor's own error says.
    pub open spec fn text(self, source: Seq<char>) -> Seq<char> {
        match self {
            RuntimeError::InvalidConfig => "batch runtime configuration is invalid"@,
            RuntimeError::WaitingCapacityExhausted => {
                "batch runtime waiting capacity is exhausted"@
            },
            RuntimeError::IdentityExhausted => "batch runtime request identity space is exhausted"@,
            RuntimeError::ParameterVersionChanged { queued, current } => {
                "queued request targets parameter version "@ + decimal(queued.0 as nat)
                    + ", but executor now exposes version "@ + decimal(current.0 as nat)
            },
            RuntimeError::MalformedBatchSelection { selected, candidates } => {
                "batch executor selected "@ + decimal(selected as nat) + " requests from "@
                    + decimal(candidates as nat) + " candidates"@
            },
            RuntimeError::MalformedCompletion { requests, returned } => {
                "batch executor returned "@ + decimal(returned as nat) + " results for "@
                    + decimal(requests@.len() as nat) + " submitted requests"@
            },
            RuntimeError::Executor { .. } => source,
            RuntimeError::Uncertain { .. } => {
                "batch executor failed after reaching the device and retains the work: "@ + source
            },
            RuntimeError::PoolClosed => "shared byte pool is closed"@,
        }
    }

    /// Says a runtime error in words; `source` is what the executor's own error says.
    #[must_use]
    pub fn message(&self, source: &str) -> (r: String)
        ensures
            r@ == self.text(source@),
    {
        match self {
            RuntimeError::InvalidConfig => "batch runtime configuration is invalid".to_owned(),
            RuntimeError::WaitingCapacityExhausted => {
                "batch runtime waiting capacity is exhausted".to_owned()
            },
            RuntimeError::IdentityExhausted => {
                "batch runtime request identity space is exhausted".to_owned()
            },
            RuntimeError::ParameterVersionChanged { queued, current } => {
                let mut text = "queued request targets parameter version ".to_owned();
                text.append(number(queued.get() as u64).as_str());
                text.append(", but executor now exposes version ");
                text.append(number(current.get() as u64).as_str());
                text
            },
            RuntimeError::MalformedBatchSelection { selected, candidates } => {
                let mut text = "batch executor selected ".to_owned();
                text.append(number(*selected as u64).as_str());
                text.append(" requests from ");
                text.append(number(*candidates as u64).as_str());
                text.append(" candidates");
                text
            },
            RuntimeError::MalformedCompletion { requests, returned } => {
                let mut text = "batch executor returned ".to_owned();
                text.append(number(*returned as u64).as_str());
                text.append(" results for ");
                text.append(number(requests.len() as u64).as_str());
                text.append(" submitted requests");
                text
            },
            RuntimeError::Executor { .. } => source.to_owned(),
            RuntimeError::Uncertain { .. } => {
                let mut text =
                    "batch executor failed after reaching the device and retains the work: ".to_owned();
                text.append(source);
                text
            },
            RuntimeError::PoolClosed => "shared byte pool is closed".to_owned(),
        }
    }
}
} // verus!
