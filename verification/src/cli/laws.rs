//! What holds of every command line, every input and every run.

use crate::cli::input::{bounded, limit_text, no_input_text, source_of, InputSourceView};
use crate::cli::inspect::only_help;
use crate::cli::options::{
    initial_options, options_from, parsed, with_option, PartialView, RunOptionsView,
};
use crate::cli::run::{ends, streamed, written, FinishReason, TextEvent};
use crate::text::{
    all_digits, blank, digit_value, digits_value, is_digit, is_whitespace, unsigned_value,
    without_plus,
};
use vstd::prelude::*;
use vstd::utf8::{decode_utf8, encode_utf8, valid_utf8};

verus! {

/// What a run is asked for where nothing else is said: no text, the model's own framing, the
/// first device, a short answer and an ordinary context.
pub proof fn law_default_options()
    ensures
        ({
            let options = initial_options();
            &&& options.model is None && options.prompt is None && options.file is None
            &&& !options.raw
            &&& options.max_tokens == 32
            &&& options.context_length == 4096
            &&& options.device == 0
        }),
{
}

/// Whether two sets of options agree on everything but a prompt.
pub open spec fn same_but_prompt(a: PartialView, b: PartialView) -> bool {
    a.model == b.model && a.file == b.file && a.raw == b.raw && a.max_tokens == b.max_tokens
        && a.context_length == b.context_length && a.device == b.device
}

/// Whether two sets of options agree on everything but a file.
pub open spec fn same_but_file(a: PartialView, b: PartialView) -> bool {
    a.model == b.model && a.prompt == b.prompt && a.raw == b.raw && a.max_tokens == b.max_tokens
        && a.context_length == b.context_length && a.device == b.device
}

/// Whether two sets of options agree on everything but numbers.
pub open spec fn same_texts(a: PartialView, b: PartialView) -> bool {
    a.model == b.model && a.prompt == b.prompt && a.file == b.file && a.raw == b.raw
}

/// Each option sets what it is named after, to the value that comes with it, and nothing
/// else; any other name is refused.
pub proof fn law_options_set_what_they_name(
    options: PartialView,
    name: Seq<char>,
    value: Seq<char>,
    usage: Seq<char>,
)
    ensures
        name == "--model"@ ==> (with_option(options, name, value, usage) is Ok <==> options.model
            is None),
        with_option(options, name, value, usage) matches Ok(next) ==> {
            &&& name == "--model"@ ==> next.model == Some(value) && next.prompt == options.prompt
                && next.file == options.file && next.raw == options.raw && next.max_tokens
                == options.max_tokens && next.context_length == options.context_length
                && next.device == options.device
            &&& name == "--prompt"@ ==> next.prompt == Some(value) && same_but_prompt(next, options)
            &&& name == "--file"@ ==> next.file == Some(value) && same_but_file(next, options)
            &&& name == "--max-tokens"@ ==> same_texts(next, options) && Some(
                next.max_tokens as nat,
            ) == unsigned_value(value) && next.context_length == options.context_length
                && next.device == options.device
            &&& name == "--context-length"@ ==> same_texts(next, options) && Some(
                next.context_length as nat,
            ) == unsigned_value(value) && next.max_tokens == options.max_tokens && next.device
                == options.device
            &&& name == "--device"@ ==> same_texts(next, options) && Some(next.device as nat)
                == unsigned_value(value) && next.max_tokens == options.max_tokens
                && next.context_length == options.context_length
        },
        name == "--prompt"@ || name == "--file"@ ==> with_option(options, name, value, usage) is Ok,
        name == "--max-tokens"@ || name == "--context-length"@ ==> (with_option(
            options,
            name,
            value,
            usage,
        ) is Ok <==> unsigned_value(value) is Some && 0 < unsigned_value(value)->Some_0
            <= u32::MAX),
        name == "--device"@ ==> (with_option(options, name, value, usage) is Ok <==> unsigned_value(
            value,
        ) is Some && unsigned_value(value)->Some_0 <= u16::MAX),
        with_option(options, name, value, usage) is Ok ==> name == "--model"@ || name
            == "--prompt"@ || name == "--file"@ || name == "--max-tokens"@ || name
            == "--context-length"@ || name == "--device"@,
{
    reveal_strlit("--model");
    reveal_strlit("--prompt");
    reveal_strlit("--file");
    reveal_strlit("--max-tokens");
    reveal_strlit("--context-length");
    reveal_strlit("--device");
    assert("--model"@[2] == 'm' && "--prompt"@[2] == 'p' && "--file"@[2] == 'f'
        && "--max-tokens"@[3] == 'a' && "--context-length"@[2] == 'c' && "--device"@[2] == 'd');
    assert("--model"@[3] == 'o' && "--max-tokens"@[2] == 'm');
}

/// Arguments are read from the first to the last: a flag stands alone, the first argument
/// without a dash names the model, and every other one is an option that takes the argument
/// behind it.
pub proof fn law_arguments_are_read_in_order(
    arguments: Seq<Seq<char>>,
    usage: Seq<char>,
    index: int,
    options: PartialView,
)
    requires
        0 <= index < arguments.len(),
    ensures
        ({
            let name = arguments[index];
            let flag = name == "--raw"@;
            let positional = !flag && !(name.len() > 0 && name[0] == '-') && options.model is None;
            let rest = options_from(arguments, usage, index, options);
            &&& flag ==> rest == options_from(
                arguments,
                usage,
                index + 1,
                PartialView { raw: true, ..options },
            )
            &&& positional ==> rest == options_from(
                arguments,
                usage,
                index + 1,
                PartialView { model: Some(name), ..options },
            )
            &&& !flag && !positional && index + 1 == arguments.len() ==> rest is Err
            &&& !flag && !positional && index + 1 < arguments.len() ==> match with_option(
                options,
                name,
                arguments[index + 1],
                usage,
            ) {
                Ok(next) => rest == options_from(arguments, usage, index + 2, next),
                Err(error) => rest == Err::<PartialView, Seq<char>>(error),
            }
        }),
        options_from(arguments, usage, arguments.len() as int, options) == Ok::<
            PartialView,
            Seq<char>,
        >(options),
{
}

/// A run is accepted exactly where its arguments can be read, a model is named, and not both
/// a prompt and a file; it then asks for what was read.
pub proof fn law_accepted_runs(arguments: Seq<Seq<char>>, usage: Seq<char>)
    ensures
        ({
            let read = options_from(arguments, usage, 0, initial_options());
            &&& parsed(arguments, usage) is Ok <==> read is Ok && read->Ok_0.model is Some && !(
            read->Ok_0.prompt is Some && read->Ok_0.file is Some)
            &&& parsed(arguments, usage) matches Ok(run) ==> {
                &&& Some(run.model) == read->Ok_0.model
                &&& run.prompt == read->Ok_0.prompt
                &&& run.file == read->Ok_0.file
                &&& run.raw == read->Ok_0.raw
                &&& run.max_tokens == read->Ok_0.max_tokens
                &&& run.context_length == read->Ok_0.context_length
                &&& run.device == read->Ok_0.device
            }
        }),
{
}

/// Whether every character from `from` on is a digit.
pub open spec fn digits_from(text: Seq<char>, from: int) -> bool {
    forall|i: int| from <= i < text.len() ==> '0' <= (#[trigger] text[i]) <= '9'
}

/// Unsigned numbers are digits, behind a plus sign or not, and nothing else.
pub proof fn law_unsigned_numbers(text: Seq<char>)
    ensures
        text.len() == 0 ==> unsigned_value(text) is None,
        text.len() > 0 && text[0] == '+' ==> (unsigned_value(text) is Some <==> text.len() > 1
            && digits_from(text, 1)),
        text.len() > 0 && text[0] != '+' ==> (unsigned_value(text) is Some <==> digits_from(
            text,
            0,
        )),
{
    let digits = without_plus(text);
    let from = text.len() - digits.len();
    assert forall|i: int| 0 <= i < digits.len() implies #[trigger] digits[i] == text[i
        + from] by {}
    if digits_from(text, from) {
        assert forall|i: int| 0 <= i < digits.len() implies is_digit(#[trigger] digits[i]) by {
            assert('0' <= text[i + from] <= '9');
        }
    }
    if all_digits(digits) {
        assert forall|i: int| from <= i < text.len() implies '0' <= (#[trigger] text[i])
            <= '9' by {
            assert(is_digit(digits[i - from]));
        }
    }
}

/// A digit in front of others counts ten times as much for each of them.
pub proof fn law_places_of_digits(digits: Seq<char>, next: char)
    ensures
        digits_value(Seq::empty()) == 0,
        digits_value(digits.push(next)) == 10 * digits_value(digits) + digit_value(next),
        digit_value('0') == 0,
        digit_value('7') == 7,
        '0' <= next <= '9' ==> digit_value(next) == next as int - '0' as int,
{
    assert(digits.push(next).drop_last() =~= digits);
}

/// Text is blank exactly where every character of it is a space of some kind.
pub proof fn law_blank_text(text: Seq<char>, c: char)
    ensures
        blank(Seq::empty()),
        blank(text.push(c)) <==> blank(text) && is_whitespace(c),
        is_whitespace(c) <==> {
            let n = c as int;
            (9 <= n && n <= 13) || n == 32 || n == 133 || n == 160 || n == 5760 || (8192 <= n && n
                <= 8202) || n == 8232 || n == 8233 || n == 8239 || n == 8287 || n == 12288
        },
{
    if blank(text.push(c)) {
        assert(text.push(c)[text.len() as int] == c);
        assert forall|i: int| 0 <= i < text.len() implies is_whitespace(#[trigger] text[i]) by {
            assert(text.push(c)[i] == text[i]);
        }
    }
    if blank(text) && is_whitespace(c) {
        assert forall|i: int| 0 <= i < text.push(c).len() implies is_whitespace(
            #[trigger] text.push(c)[i],
        ) by {
            if i < text.len() {
                assert(text.push(c)[i] == text[i]);
            }
        }
    }
}

/// Where input comes from: the prompt where one is given, else the file, else what is piped
/// in. A terminal pipes nothing in, and a prompt within the limit is taken as it is.
pub proof fn law_sources_of_input(options: RunOptionsView, max_bytes: usize, terminal: bool)
    ensures
        options.prompt matches Some(prompt) ==> source_of(options, max_bytes, terminal) == (
        if encode_utf8(prompt).len() <= max_bytes {
            Ok::<InputSourceView, Seq<char>>(InputSourceView::Text(prompt))
        } else {
            Err(limit_text(max_bytes))
        }),
        options.prompt is None && options.file is Some ==> source_of(options, max_bytes, terminal)
            == Ok::<InputSourceView, Seq<char>>(InputSourceView::File(options.file->Some_0)),
        options.prompt is None && options.file is None ==> source_of(options, max_bytes, terminal)
            == (if terminal {
            Err::<InputSourceView, Seq<char>>(no_input_text())
        } else {
            Ok(InputSourceView::Stdin)
        }),
{
}

/// Bytes are taken as text exactly where they are within the limit and valid; the text is
/// what they encode. A reading that failed gives its own error.
pub proof fn law_taken_text(read: Result<Vec<u8>, String>, max_bytes: usize)
    requires
        max_bytes < u64::MAX,
    ensures
        bounded(read, max_bytes) is Ok <==> read is Ok && read->Ok_0@.len() <= max_bytes
            && valid_utf8(read->Ok_0@),
        bounded(read, max_bytes) is Ok ==> bounded(read, max_bytes)->Ok_0 == decode_utf8(
            read->Ok_0@,
        ),
        read matches Err(error) ==> bounded(read, max_bytes) == Err::<Seq<char>, Seq<char>>(error@),
        read is Ok && read->Ok_0@.len() > max_bytes ==> bounded(read, max_bytes) == Err::<
            Seq<char>,
            Seq<char>,
        >(limit_text(max_bytes)),
{
}

/// Help is asked for by either of its flags, alone.
pub proof fn law_help_is_asked_for_alone(arguments: Seq<Seq<char>>)
    ensures
        only_help(arguments) <==> arguments.len() == 1 && (arguments[0] == "-h"@ || arguments[0]
            == "--help"@),
{
}

/// The texts of the first `n` events, put together.
pub open spec fn deltas(events: Seq<Result<TextEvent, String>>, n: int) -> Seq<char>
    decreases n,
{
    if n <= 0 {
        Seq::empty()
    } else {
        deltas(events, n - 1) + match events[n - 1] {
            Ok(TextEvent::Delta(text)) => text@,
            _ => Seq::empty(),
        }
    }
}

/// A run writes the text of every event before the one that ends it, in order and nothing
/// behind it, and ends as that event says: it succeeds where generation stopped or reached
/// its length, and fails where it was cancelled, failed or broke off.
pub proof fn law_runs_write_what_precedes_the_end(events: Seq<Result<TextEvent, String>>, n: int)
    requires
        0 <= n <= events.len(),
        forall|i: int| 0 <= i < n ==> (#[trigger] events[i]) is Ok && events[i]->Ok_0 is Delta,
        n < events.len() ==> !(events[n] is Ok && events[n]->Ok_0 is Delta),
    ensures
        written(events) == deltas(events, n),
        n == events.len() ==> streamed(events) is Err,
        n < events.len() ==> match events[n] {
            Err(error) => streamed(events) == Err::<(), Seq<char>>(error@),
            Ok(TextEvent::Finished(FinishReason::Length)) => streamed(events) is Ok,
            Ok(TextEvent::Finished(FinishReason::Stop)) => streamed(events) is Ok,
            Ok(TextEvent::Finished(FinishReason::Cancelled)) => streamed(events) is Err,
            Ok(TextEvent::Finished(FinishReason::Failed(error))) => streamed(events) == Err::<
                (),
                Seq<char>,
            >(error@),
            Ok(_) => false,
        },
    decreases events.len(),
{
    if n > 0 {
        let rest = events.drop_first();
        assert forall|i: int| 0 <= i < n - 1 implies (#[trigger] rest[i]) is Ok
            && rest[i]->Ok_0 is Delta by {
            assert(rest[i] == events[i + 1]);
        }
        if n < events.len() {
            assert(rest[n - 1] == events[n]);
        }
        law_runs_write_what_precedes_the_end(rest, n - 1);
        lemma_deltas_shift(events, n);
        assert(events[0] is Ok && events[0]->Ok_0 is Delta);
        assert(deltas(events, 0) =~= Seq::<char>::empty());
        assert(deltas(events, 1) =~= events[0]->Ok_0->Delta_0@);
    } else if n < events.len() {
        assert(ends(events[0]));
    }
}

proof fn lemma_deltas_shift(events: Seq<Result<TextEvent, String>>, n: int)
    requires
        0 < n <= events.len(),
    ensures
        deltas(events, n) == deltas(events, 1) + deltas(events.drop_first(), n - 1),
    decreases n,
{
    if n > 1 {
        lemma_deltas_shift(events, n - 1);
        assert(events.drop_first()[n - 2] == events[n - 1]);
        assert(deltas(events, n) =~= deltas(events, 1) + deltas(events.drop_first(), n - 1));
    } else {
        assert(deltas(events.drop_first(), 0) =~= Seq::<char>::empty());
        assert(deltas(events, 1) =~= deltas(events, 1) + Seq::<char>::empty());
    }
}

} // verus!
