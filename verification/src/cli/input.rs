//! Bounded UTF-8 ingestion before model loading. Argument storage is caller-owned; a file or
//! standard input is read to at most the payload limit plus one overflow-probe byte.

use crate::cli::options::{RunOptions, RunOptionsView};
use crate::text::{decimal, number};
use vstd::prelude::*;
use vstd::utf8::{decode_utf8, decode_utf8_encode_utf8, encode_utf8, valid_utf8};

verus! {

/// Where a run's text comes from.
#[derive(Clone, Debug, PartialEq, Eq)]
pub enum InputSource {
    /// The text was given as an argument.
    Text(String),
    /// The text stands in a file.
    File(String),
    /// The text is piped on standard input.
    Stdin,
}

/// What an input source holds.
#[verifier::ext_equal]
pub enum InputSourceView {
    Text(Seq<char>),
    File(Seq<char>),
    Stdin,
}

impl View for InputSource {
    type V = InputSourceView;

    open spec fn view(&self) -> InputSourceView {
        match *self {
            InputSource::Text(text) => InputSourceView::Text(text@),
            InputSource::File(path) => InputSourceView::File(path@),
            InputSource::Stdin => InputSourceView::Stdin,
        }
    }
}

/// What an oversized input is answered.
pub open spec fn limit_text(max_bytes: usize) -> Seq<char> {
    "input exceeds the "@ + decimal(max_bytes as nat) + "-byte text limit"@
}

/// What a run without input is answered.
pub open spec fn no_input_text() -> Seq<char> {
    "no input supplied; use --prompt, --file, or pipe text on stdin (interactive mode is not implemented yet)"@
}

/// Where the text of a run comes from, or why there is none: an argument first, held to the
/// byte limit, then a file, then standard input unless it is a terminal.
pub open spec fn source_of(options: RunOptionsView, max_bytes: usize, terminal: bool) -> Result<
    InputSourceView,
    Seq<char>,
> {
    match options.prompt {
        Some(prompt) => if encode_utf8(prompt).len() > max_bytes {
            Err(limit_text(max_bytes))
        } else {
            Ok(InputSourceView::Text(prompt))
        },
        None => match options.file {
            Some(path) => Ok(InputSourceView::File(path)),
            None => if terminal {
                Err(no_input_text())
            } else {
                Ok(InputSourceView::Stdin)
            },
        },
    }
}

fn limit_error(max_bytes: usize) -> (r: String)
    ensures
        r@ == limit_text(max_bytes),
{
    let mut text = "input exceeds the ".to_owned();
    text.append(number(max_bytes as u64).as_str());
    text.append("-byte text limit");
    text
}

/// Decide where the text of a run comes from. A prompt is moved out of the options.
///
/// # Errors
/// Says in words that the prompt exceeds the limit, or that no input was supplied.
pub fn input_source(options: &mut RunOptions, max_bytes: usize, terminal: bool) -> (r: Result<
    InputSource,
    String,
>)
    ensures
        match source_of(old(options)@, max_bytes, terminal) {
            Ok(source) => r is Ok && r->Ok_0@ == source,
            Err(error) => r is Err && r->Err_0@ == error,
        },
        final(options)@ == (RunOptionsView { prompt: None, ..old(options)@ }),
{
    if let Some(prompt) = options.prompt.take() {
        if prompt.as_str().as_bytes().len() > max_bytes {
            return Err(limit_error(max_bytes));
        }
        return Ok(InputSource::Text(prompt));
    }
    if let Some(path) = &options.file {
        return Ok(InputSource::File(path.clone()));
    }
    if terminal {
        return Err(
            "no input supplied; use --prompt, --file, or pipe text on stdin (interactive mode is not implemented yet)".to_owned(),
        );
    }
    Ok(InputSource::Stdin)
}

/// How many bytes may be read of a source: the limit and one byte that shows an excess.
///
/// # Errors
/// Says in words that no such count exists.
pub fn read_limit(max_bytes: usize) -> (r: Result<u64, String>)
    ensures
        max_bytes < u64::MAX ==> r is Ok && r->Ok_0 == max_bytes + 1,
        max_bytes == u64::MAX ==> r is Err && r->Err_0@ == "input byte limit is too large"@,
{
    match (max_bytes as u64).checked_add(1) {
        Some(limit) => Ok(limit),
        None => Err("input byte limit is too large".to_owned()),
    }
}

/// How the standard library describes what stops bytes from being UTF-8.
pub uninterp spec fn utf8_defect(bytes: Seq<u8>) -> Seq<char>;

/// Decodes bytes with `String::from_utf8`. The contract claims that it succeeds exactly on
/// valid UTF-8, with the text that the bytes encode, and that its description of invalid
/// bytes is a function of the bytes; what it says of them is left to the standard library.
#[verifier::external_body]
fn decoded(bytes: Vec<u8>) -> (r: Result<String, String>)
    ensures
        r is Ok == valid_utf8(bytes@),
        r is Ok ==> r->Ok_0@ == decode_utf8(bytes@),
        r is Err ==> r->Err_0@ == utf8_defect(bytes@),
{
    String::from_utf8(bytes).map_err(|error| error.to_string())
}

/// The text of bytes that were read, or why they are refused. Size is tested before
/// encoding: the overflow probe may split a code point.
pub open spec fn accepted_text(bytes: Seq<u8>, max_bytes: usize) -> Result<Seq<char>, Seq<char>> {
    if bytes.len() > max_bytes {
        Err(limit_text(max_bytes))
    } else if valid_utf8(bytes) {
        Ok(decode_utf8(bytes))
    } else {
        Err("input is not valid UTF-8: "@ + utf8_defect(bytes))
    }
}

/// What was read of a source, bounded.
pub open spec fn bounded(read: Result<Vec<u8>, String>, max_bytes: usize) -> Result<
    Seq<char>,
    Seq<char>,
> {
    if max_bytes == u64::MAX {
        Err("input byte limit is too large"@)
    } else {
        match read {
            Err(error) => Err(error@),
            Ok(bytes) => accepted_text(bytes@, max_bytes),
        }
    }
}

/// Accept what was read of a source to at most [`read_limit`] bytes.
///
/// # Errors
/// Says in words that the read failed, that the input exceeds the limit, or that it is not
/// UTF-8.
pub fn read_bounded(read: Result<Vec<u8>, String>, max_bytes: usize) -> (r: Result<String, String>)
    ensures
        match bounded(read, max_bytes) {
            Ok(text) => r is Ok && r->Ok_0@ == text,
            Err(error) => r is Err && r->Err_0@ == error,
        },
{
    if let Err(error) = read_limit(max_bytes) {
        return Err(error);
    }
    let bytes = match read {
        Ok(bytes) => bytes,
        Err(error) => return Err(error),
    };
    if bytes.len() > max_bytes {
        return Err(limit_error(max_bytes));
    }
    match decoded(bytes) {
        Ok(text) => Ok(text),
        Err(error) => {
            let mut text = "input is not valid UTF-8: ".to_owned();
            text.append(error.as_str());
            Err(text)
        },
    }
}

/// An error about a named source.
pub open spec fn source_error(action: Seq<char>, source: Seq<char>, error: Seq<char>) -> Seq<char> {
    action + source + ": "@ + error
}

fn named_error(action: &str, source: &str, error: &str) -> (r: String)
    ensures
        r@ == source_error(action@, source@, error@),
{
    let mut text = action.to_owned();
    text.append(source);
    text.append(": ");
    text.append(error);
    text
}

/// What a file that cannot be opened is answered.
#[must_use]
pub fn open_error(path: &str, error: &str) -> (r: String)
    ensures
        r@ == source_error("failed to open "@, path@, error@),
{
    named_error("failed to open ", path, error)
}

/// The text of a file.
///
/// # Errors
/// Names the file and says what [`read_bounded`] says.
pub fn file_text(path: &str, read: Result<Vec<u8>, String>, max_bytes: usize) -> (r: Result<
    String,
    String,
>)
    ensures
        match bounded(read, max_bytes) {
            Ok(text) => r is Ok && r->Ok_0@ == text,
            Err(error) => r is Err && r->Err_0@ == source_error("failed to read "@, path@, error),
        },
{
    match read_bounded(read, max_bytes) {
        Ok(text) => Ok(text),
        Err(error) => Err(named_error("failed to read ", path, error.as_str())),
    }
}

/// The text piped on standard input.
///
/// # Errors
/// Says what [`read_bounded`] says, and that an empty input is none.
pub fn stdin_text(read: Result<Vec<u8>, String>, max_bytes: usize) -> (r: Result<String, String>)
    ensures
        match bounded(read, max_bytes) {
            Ok(text) => if text.len() == 0 {
                r is Err && r->Err_0@ == "stdin contained no input"@
            } else {
                r is Ok && r->Ok_0@ == text
            },
            Err(error) => r is Err && r->Err_0@ == source_error(
                "failed to read "@,
                "stdin"@,
                error,
            ),
        },
{
    match read_bounded(read, max_bytes) {
        Ok(text) => if text.as_str().unicode_len() == 0 {
            Err("stdin contained no input".to_owned())
        } else {
            Ok(text)
        },
        Err(error) => Err(named_error("failed to read ", "stdin", error.as_str())),
    }
}

/// Accepted text is what was read, byte for byte: it encodes back to the bytes of the
/// source and stays within the limit.
pub proof fn law_accepted_text_is_what_was_read(bytes: Seq<u8>, max_bytes: usize)
    requires
        accepted_text(bytes, max_bytes) is Ok,
    ensures
        encode_utf8(accepted_text(bytes, max_bytes)->Ok_0) == bytes,
        encode_utf8(accepted_text(bytes, max_bytes)->Ok_0).len() <= max_bytes,
{
    decode_utf8_encode_utf8(bytes);
}

/// One probe byte is enough: a source is refused as oversized after reading one byte past
/// the limit exactly where it is refused after reading all of it.
pub proof fn law_one_probe_byte_shows_an_excess(source: Seq<u8>, max_bytes: usize)
    requires
        max_bytes < u64::MAX,
    ensures
        ({
            let read = if source.len() <= max_bytes + 1 {
                source
            } else {
                source.take(max_bytes + 1)
            };
            &&& accepted_text(read, max_bytes) == Err::<Seq<char>, Seq<char>>(
                limit_text(max_bytes),
            ) || source.len() <= max_bytes
            &&& source.len() <= max_bytes ==> accepted_text(read, max_bytes) == accepted_text(
                source,
                max_bytes,
            )
        }),
{
}

} // verus!
