//! A local run: how much text it takes, what it says while it prepares, and how it ends.

use crate::cli::inspect::{is_only_help, only_help};
use crate::cli::options::{parse, parsed, texts, RunOptions};
use crate::text::{decimal, number};
use vstd::prelude::*;

verus! {

/// How a run is called.
pub const USAGE: &'static str = "ribn run <model.gguf> [--prompt <text> | --file <path>] [--raw] [--max-tokens <n>] [--context-length <n>] [--device <ordinal>]";

/// Bytes of input that a run takes, the role of a chat message among them.
pub const MAX_INPUT_BYTES: usize = 262_144;

/// The role that a run's text has in a chat.
pub const CHAT_ROLE: &'static str = "user";

/// What a run was asked to do.
#[derive(Clone, Debug, PartialEq, Eq)]
pub enum RunRequest {
    Help,
    Run(RunOptions),
}

/// Read the arguments of a run.
///
/// # Errors
/// Says in words what the arguments are refused for.
pub fn run_request(arguments: &[String]) -> (r: Result<RunRequest, String>)
    ensures
        only_help(texts(arguments@)) ==> r == Ok::<RunRequest, String>(RunRequest::Help),
        !only_help(texts(arguments@)) ==> match parsed(texts(arguments@), USAGE@) {
            Ok(options) => r is Ok && r->Ok_0 is Run && r->Ok_0->Run_0@ == options,
            Err(error) => r is Err && r->Err_0@ == error,
        },
{
    if is_only_help(arguments) {
        return Ok(RunRequest::Help);
    }
    match parse(arguments, USAGE) {
        Ok(options) => Ok(RunRequest::Run(options)),
        Err(error) => Err(error),
    }
}

/// How many bytes of text a run takes: the input limit, less the role that a chat message
/// carries.
///
/// # Errors
/// Says in words that the limit cannot hold the role.
pub fn max_text_bytes(max_input_bytes: usize, role_bytes: usize, raw: bool) -> (r: Result<
    usize,
    String,
>)
    ensures
        ({
            let role = if raw {
                0
            } else {
                role_bytes
            };
            if role <= max_input_bytes {
                r is Ok && r->Ok_0 == max_input_bytes - role
            } else {
                r is Err && r->Err_0@ == "input byte limit cannot hold the chat role"@
            }
        }),
{
    let role: usize = if raw {
        0
    } else {
        role_bytes
    };
    if role > max_input_bytes {
        return Err("input byte limit cannot hold the chat role".to_owned());
    }
    Ok(max_input_bytes - role)
}

/// What is said before a model is prepared.
#[must_use]
pub fn preparing_text(device: u16, context_length: u32) -> (r: String)
    ensures
        r@ == "preparing model on CUDA device "@ + decimal(device as nat) + " with "@ + decimal(
            context_length as nat,
        ) + "-token context capacity (experimental Ribn runtime)"@,
{
    let mut text = "preparing model on CUDA device ".to_owned();
    text.append(number(device as u64).as_str());
    text.append(" with ");
    text.append(number(context_length as u64).as_str());
    text.append("-token context capacity (experimental Ribn runtime)");
    text
}

/// What is said once a model is prepared.
#[must_use]
pub fn ready_text(reserved_bytes: u64, free_bytes: u64) -> (r: String)
    ensures
        r@ == "ready: "@ + decimal(reserved_bytes as nat)
            + " bytes reserved for sequence state; "@ + decimal(free_bytes as nat)
            + " device bytes free after preparation"@,
{
    let mut text = "ready: ".to_owned();
    text.append(number(reserved_bytes).as_str());
    text.append(" bytes reserved for sequence state; ");
    text.append(number(free_bytes).as_str());
    text.append(" device bytes free after preparation");
    text
}

/// Why a generation ended.
#[derive(Clone, Debug, PartialEq, Eq)]
pub enum FinishReason {
    Length,
    Stop,
    Cancelled,
    Failed(String),
}

/// One event of a generation.
#[derive(Clone, Debug, PartialEq, Eq)]
pub enum TextEvent {
    Delta(String),
    Finished(FinishReason),
}

/// What to do with an event.
#[derive(Debug, PartialEq, Eq)]
pub enum StreamStep {
    /// Write the text and wait for the next event.
    Write(String),
    /// The generation is over.
    End(Result<(), String>),
}

/// How a run ends for a reason.
pub open spec fn finish_outcome(reason: FinishReason) -> Result<(), Seq<char>> {
    match reason {
        FinishReason::Length => Ok(()),
        FinishReason::Stop => Ok(()),
        FinishReason::Cancelled => Err("generation was cancelled"@),
        FinishReason::Failed(error) => Err(error@),
    }
}

/// Whether an outcome is the expected one.
pub open spec fn outcome_is(found: Result<(), String>, expected: Result<(), Seq<char>>) -> bool {
    match expected {
        Ok(()) => found == Ok::<(), String>(()),
        Err(error) => found is Err && found->Err_0@ == error,
    }
}

/// Decide what one event means for a run.
#[must_use]
pub fn stream_step(event: Result<TextEvent, String>) -> (r: StreamStep)
    ensures
        match event {
            Err(error) => r == StreamStep::End(Err(error)),
            Ok(TextEvent::Delta(text)) => r == StreamStep::Write(text),
            Ok(TextEvent::Finished(reason)) => r is End && outcome_is(
                r->End_0,
                finish_outcome(reason),
            ),
        },
{
    match event {
        Err(error) => StreamStep::End(Err(error)),
        Ok(TextEvent::Delta(text)) => StreamStep::Write(text),
        Ok(TextEvent::Finished(reason)) => match reason {
            FinishReason::Length => StreamStep::End(Ok(())),
            FinishReason::Stop => StreamStep::End(Ok(())),
            FinishReason::Cancelled => StreamStep::End(
                Err("generation was cancelled".to_owned()),
            ),
            FinishReason::Failed(error) => StreamStep::End(Err(error)),
        },
    }
}

/// How a run ends whose events are used up.
///
/// # Errors
/// Always: a generation owes a terminal event.
pub fn stream_exhausted() -> (r: Result<(), String>)
    ensures
        r is Err,
        r->Err_0@ == "generation ended without a terminal event"@,
{
    Err("generation ended without a terminal event".to_owned())
}

/// Whether an event ends a run.
pub open spec fn ends(event: Result<TextEvent, String>) -> bool {
    !(event is Ok && event->Ok_0 is Delta)
}

/// What a run writes of its events: every delta before the first event that ends it.
pub open spec fn written(events: Seq<Result<TextEvent, String>>) -> Seq<char>
    decreases events.len(),
{
    if events.len() == 0 || ends(events[0]) {
        Seq::empty()
    } else {
        events[0]->Ok_0->Delta_0@ + written(events.drop_first())
    }
}

/// How a run ends over its events.
pub open spec fn streamed(events: Seq<Result<TextEvent, String>>) -> Result<(), Seq<char>>
    decreases events.len(),
{
    if events.len() == 0 {
        Err("generation ended without a terminal event"@)
    } else if !ends(events[0]) {
        streamed(events.drop_first())
    } else {
        match events[0] {
            Err(error) => Err(error@),
            Ok(event) => finish_outcome(event->Finished_0),
        }
    }
}

/// Combine how a generation ended with how its owner shut down.
///
/// # Errors
/// Says the one error, or both.
pub fn combined(result: Result<(), String>, shutdown: Result<(), String>) -> (r: Result<
    (),
    String,
>)
    ensures
        match (result, shutdown) {
            (Ok(()), Ok(())) => r == Ok::<(), String>(()),
            (Err(error), Ok(())) => r == Err::<(), String>(error),
            (Ok(()), Err(error)) => r == Err::<(), String>(error),
            (Err(error), Err(cleanup)) => r is Err && r->Err_0@ == error@
                + "; shutdown also failed: "@ + cleanup@,
        },
{
    match (result, shutdown) {
        (Ok(()), Ok(())) => Ok(()),
        (Err(error), Ok(())) => Err(error),
        (Ok(()), Err(error)) => Err(error),
        (Err(error), Err(cleanup)) => {
            let mut text = error;
            text.append("; shutdown also failed: ");
            text.append(cleanup.as_str());
            Err(text)
        },
    }
}

/// A run that succeeds saw a terminal event that allows it, and nothing behind the first
/// terminal event changes what was written or how the run ended.
pub proof fn law_success_needs_a_terminal_event(
    events: Seq<Result<TextEvent, String>>,
    later: Seq<Result<TextEvent, String>>,
)
    ensures
        streamed(events) is Ok ==> exists|i: int|
            0 <= i < events.len() && #[trigger] events[i] is Ok && (events[i]->Ok_0
                == TextEvent::Finished(FinishReason::Length) || events[i]->Ok_0
                == TextEvent::Finished(FinishReason::Stop)),
        (exists|i: int| 0 <= i < events.len() && #[trigger] ends(events[i])) ==> streamed(
            events + later,
        ) == streamed(events) && written(events + later) == written(events),
    decreases events.len(),
{
    if events.len() > 0 {
        assert((events + later)[0] == events[0]);
        if !ends(events[0]) {
            let rest = events.drop_first();
            law_success_needs_a_terminal_event(rest, later);
            assert((events + later).drop_first() =~= rest + later);
            if streamed(events) is Ok {
                let i = choose|i: int|
                    0 <= i < rest.len() && #[trigger] rest[i] is Ok && (rest[i]->Ok_0
                        == TextEvent::Finished(FinishReason::Length) || rest[i]->Ok_0
                        == TextEvent::Finished(FinishReason::Stop));
                assert(events[i + 1] == rest[i]);
            }
            if exists|i: int| 0 <= i < events.len() && #[trigger] ends(events[i]) {
                let i = choose|i: int| 0 <= i < events.len() && #[trigger] ends(events[i]);
                assert(rest[i - 1] == events[i]);
                assert(ends(rest[i - 1]));
            }
        }
    }
}

} // verus!
