//! Arguments of a local run.

use crate::text::{debug_text, parse_unsigned, quoted, same_text, unsigned_value};
use vstd::prelude::*;

verus! {

/// Output tokens of a run that does not say.
pub const DEFAULT_MAX_TOKENS: u32 = 32;

/// Context tokens of a run that does not say.
pub const DEFAULT_CONTEXT_LENGTH: u32 = 4096;

/// What a run was asked to do. Paths are kept as they were written.
#[derive(Clone, Debug, PartialEq, Eq)]
pub struct RunOptions {
    pub model: String,
    pub prompt: Option<String>,
    pub file: Option<String>,
    pub raw: bool,
    pub max_tokens: u32,
    pub context_length: u32,
    pub device: u16,
}

/// What run options hold.
#[verifier::ext_equal]
pub struct RunOptionsView {
    pub model: Seq<char>,
    pub prompt: Option<Seq<char>>,
    pub file: Option<Seq<char>>,
    pub raw: bool,
    pub max_tokens: u32,
    pub context_length: u32,
    pub device: u16,
}

/// The text inside an option.
pub open spec fn optional_text(text: Option<String>) -> Option<Seq<char>> {
    match text {
        Some(text) => Some(text@),
        None => None,
    }
}

impl View for RunOptions {
    type V = RunOptionsView;

    open spec fn view(&self) -> RunOptionsView {
        RunOptionsView {
            model: self.model@,
            prompt: optional_text(self.prompt),
            file: optional_text(self.file),
            raw: self.raw,
            max_tokens: self.max_tokens,
            context_length: self.context_length,
            device: self.device,
        }
    }
}

/// Options read so far; the model may still be missing.
#[verifier::ext_equal]
pub struct PartialView {
    pub model: Option<Seq<char>>,
    pub prompt: Option<Seq<char>>,
    pub file: Option<Seq<char>>,
    pub raw: bool,
    pub max_tokens: u32,
    pub context_length: u32,
    pub device: u16,
}

struct PartialOptions {
    model: Option<String>,
    prompt: Option<String>,
    file: Option<String>,
    raw: bool,
    max_tokens: u32,
    context_length: u32,
    device: u16,
}

impl View for PartialOptions {
    type V = PartialView;

    closed spec fn view(&self) -> PartialView {
        PartialView {
            model: optional_text(self.model),
            prompt: optional_text(self.prompt),
            file: optional_text(self.file),
            raw: self.raw,
            max_tokens: self.max_tokens,
            context_length: self.context_length,
            device: self.device,
        }
    }
}

/// The options of a run that says nothing.
pub open spec fn initial_options() -> PartialView {
    PartialView {
        model: None,
        prompt: None,
        file: None,
        raw: false,
        max_tokens: DEFAULT_MAX_TOKENS,
        context_length: DEFAULT_CONTEXT_LENGTH,
        device: 0,
    }
}

/// The texts of arguments.
pub open spec fn texts(arguments: Seq<String>) -> Seq<Seq<char>> {
    arguments.map_values(|argument: String| argument@)
}

/// A number that an option accepts: not zero, and no greater than `u32` holds.
pub open spec fn positive_value(value: Seq<char>, option: Seq<char>) -> Result<u32, Seq<char>> {
    match unsigned_value(value) {
        Some(found) => if found > u32::MAX {
            Err(option + " expects a positive integer"@)
        } else if found == 0 {
            Err(option + " must be greater than zero"@)
        } else {
            Ok(found as u32)
        },
        None => Err(option + " expects a positive integer"@),
    }
}

/// A device ordinal.
pub open spec fn device_value(value: Seq<char>) -> Result<u16, Seq<char>> {
    match unsigned_value(value) {
        Some(found) => if found <= u16::MAX {
            Ok(found as u16)
        } else {
            Err("--device expects a non-negative device ordinal"@)
        },
        None => Err("--device expects a non-negative device ordinal"@),
    }
}

/// The options once one named option took its value, or why it cannot.
pub open spec fn with_option(
    options: PartialView,
    name: Seq<char>,
    value: Seq<char>,
    usage: Seq<char>,
) -> Result<PartialView, Seq<char>> {
    if name == "--model"@ {
        if options.model is Some {
            Err("model may be specified only once"@)
        } else {
            Ok(PartialView { model: Some(value), ..options })
        }
    } else if name == "--prompt"@ {
        Ok(PartialView { prompt: Some(value), ..options })
    } else if name == "--file"@ {
        Ok(PartialView { file: Some(value), ..options })
    } else if name == "--max-tokens"@ {
        match positive_value(value, "--max-tokens"@) {
            Ok(max_tokens) => Ok(PartialView { max_tokens, ..options }),
            Err(error) => Err(error),
        }
    } else if name == "--context-length"@ {
        match positive_value(value, "--context-length"@) {
            Ok(context_length) => Ok(PartialView { context_length, ..options }),
            Err(error) => Err(error),
        }
    } else if name == "--device"@ {
        match device_value(value) {
            Ok(device) => Ok(PartialView { device, ..options }),
            Err(error) => Err(error),
        }
    } else {
        Err("unknown local option "@ + debug_text(name) + "; usage: "@ + usage)
    }
}

/// Whether an argument is written as an option.
pub open spec fn dashed(argument: Seq<char>) -> bool {
    argument.len() > 0 && argument[0] == '-'
}

/// The options after the arguments from `index` on, or the first reason to refuse them.
///
/// `--raw` stands alone. The first argument without a dash is the model, where none was
/// named yet. Every other argument is an option's name and takes the next one as its value,
/// whatever that looks like.
pub open spec fn options_from(
    arguments: Seq<Seq<char>>,
    usage: Seq<char>,
    index: int,
    options: PartialView,
) -> Result<PartialView, Seq<char>>
    decreases arguments.len() - index,
{
    if index >= arguments.len() {
        Ok(options)
    } else {
        let name = arguments[index];
        if name == "--raw"@ {
            options_from(arguments, usage, index + 1, PartialView { raw: true, ..options })
        } else if !dashed(name) && options.model is None {
            options_from(
                arguments,
                usage,
                index + 1,
                PartialView { model: Some(name), ..options },
            )
        } else if index + 1 >= arguments.len() {
            Err("missing value for "@ + name + "; usage: "@ + usage)
        } else {
            match with_option(options, name, arguments[index + 1], usage) {
                Err(error) => Err(error),
                Ok(next) => options_from(arguments, usage, index + 2, next),
            }
        }
    }
}

/// The options once all arguments were read.
pub open spec fn completed_options(options: PartialView, usage: Seq<char>) -> Result<
    RunOptionsView,
    Seq<char>,
> {
    if options.prompt is Some && options.file is Some {
        Err("--prompt and --file are mutually exclusive"@)
    } else {
        match options.model {
            None => Err("model is required; usage: "@ + usage),
            Some(model) => Ok(
                RunOptionsView {
                    model,
                    prompt: options.prompt,
                    file: options.file,
                    raw: options.raw,
                    max_tokens: options.max_tokens,
                    context_length: options.context_length,
                    device: options.device,
                },
            ),
        }
    }
}

/// The run that arguments ask for, or why there is none.
pub open spec fn parsed(arguments: Seq<Seq<char>>, usage: Seq<char>) -> Result<
    RunOptionsView,
    Seq<char>,
> {
    match options_from(arguments, usage, 0, initial_options()) {
        Err(error) => Err(error),
        Ok(options) => completed_options(options, usage),
    }
}

fn joined(first: &str, second: &str) -> (r: String)
    ensures
        r@ == first@ + second@,
{
    let mut text = first.to_owned();
    text.append(second);
    text
}

fn with_usage(text: String, usage: &str) -> (r: String)
    ensures
        r@ == text@ + "; usage: "@ + usage@,
{
    let mut text = text;
    text.append("; usage: ");
    text.append(usage);
    text
}

fn positive_u32(value: &str, option: &str) -> (r: Result<u32, String>)
    ensures
        match positive_value(value@, option@) {
            Ok(found) => r == Ok::<u32, String>(found),
            Err(error) => r is Err && r->Err_0@ == error,
        },
{
    match parse_unsigned(value, u32::MAX) {
        None => Err(joined(option, " expects a positive integer")),
        Some(found) => if found == 0 {
            Err(joined(option, " must be greater than zero"))
        } else {
            Ok(found)
        },
    }
}

fn device_ordinal(value: &str) -> (r: Result<u16, String>)
    ensures
        match device_value(value@) {
            Ok(found) => r == Ok::<u16, String>(found),
            Err(error) => r is Err && r->Err_0@ == error,
        },
{
    match parse_unsigned(value, u16::MAX as u32) {
        None => Err("--device expects a non-negative device ordinal".to_owned()),
        Some(found) => Ok(found as u16),
    }
}

fn is_dashed(argument: &str) -> (r: bool)
    ensures
        r == dashed(argument@),
{
    argument.unicode_len() > 0 && argument.get_char(0) == '-'
}

impl PartialOptions {
    fn accept(&mut self, name: &str, value: &str, usage: &str) -> (r: Result<(), String>)
        ensures
            match with_option(old(self)@, name@, value@, usage@) {
                Ok(next) => r == Ok::<(), String>(()) && final(self)@ == next,
                Err(error) => r is Err && r->Err_0@ == error,
            },
    {
        if same_text(name, "--model") {
            if self.model.is_some() {
                return Err("model may be specified only once".to_owned());
            }
            self.model = Some(value.to_owned());
        } else if same_text(name, "--prompt") {
            self.prompt = Some(value.to_owned());
        } else if same_text(name, "--file") {
            self.file = Some(value.to_owned());
        } else if same_text(name, "--max-tokens") {
            self.max_tokens = positive_u32(value, "--max-tokens")?;
        } else if same_text(name, "--context-length") {
            self.context_length = positive_u32(value, "--context-length")?;
        } else if same_text(name, "--device") {
            self.device = device_ordinal(value)?;
        } else {
            let text = joined("unknown local option ", quoted(name).as_str());
            return Err(with_usage(text, usage));
        }
        Ok(())
    }

    fn complete(self, usage: &str) -> (r: Result<RunOptions, String>)
        ensures
            match completed_options(self@, usage@) {
                Ok(options) => r is Ok && r->Ok_0@ == options,
                Err(error) => r is Err && r->Err_0@ == error,
            },
    {
        if self.prompt.is_some() && self.file.is_some() {
            return Err("--prompt and --file are mutually exclusive".to_owned());
        }
        match self.model {
            None => Err(joined("model is required; usage: ", usage)),
            Some(model) => Ok(
                RunOptions {
                    model,
                    prompt: self.prompt,
                    file: self.file,
                    raw: self.raw,
                    max_tokens: self.max_tokens,
                    context_length: self.context_length,
                    device: self.device,
                },
            ),
        }
    }
}

/// Read the arguments of a run.
///
/// # Errors
/// Says in words which argument is missing, unknown, repeated or unusable.
pub fn parse(arguments: &[String], usage: &str) -> (r: Result<RunOptions, String>)
    ensures
        match parsed(texts(arguments@), usage@) {
            Ok(options) => r is Ok && r->Ok_0@ == options,
            Err(error) => r is Err && r->Err_0@ == error,
        },
{
    let mut options = PartialOptions {
        model: None,
        prompt: None,
        file: None,
        raw: false,
        max_tokens: DEFAULT_MAX_TOKENS,
        context_length: DEFAULT_CONTEXT_LENGTH,
        device: 0,
    };
    let ghost all = texts(arguments@);
    let mut index: usize = 0;
    while index < arguments.len()
        invariant
            index <= arguments@.len(),
            all == texts(arguments@),
            options_from(all, usage@, 0, initial_options()) == options_from(
                all,
                usage@,
                index as int,
                options@,
            ),
        decreases arguments@.len() - index,
    {
        let name = arguments[index].as_str();
        assert(all[index as int] == name@);
        if same_text(name, "--raw") {
            options.raw = true;
            index += 1;
            continue ;
        }
        if !is_dashed(name) && options.model.is_none() {
            options.model = Some(name.to_owned());
            index += 1;
            continue ;
        }
        if arguments.len() - index < 2 {
            return Err(with_usage(joined("missing value for ", name), usage));
        }
        let value = arguments[index + 1].as_str();
        assert(all[index + 1] == value@);
        options.accept(name, value, usage)?;
        index += 2;
    }
    options.complete(usage)
}

/// A prompt and a file are never accepted together, a model is always named, and the token
/// budgets of an accepted run are positive.
pub proof fn law_accepted_runs_are_consistent(arguments: Seq<Seq<char>>, usage: Seq<char>)
    requires
        parsed(arguments, usage) is Ok,
    ensures
        ({
            let options = parsed(arguments, usage)->Ok_0;
            &&& options.prompt is None || options.file is None
            &&& options.max_tokens > 0
            &&& options.context_length > 0
        }),
{
    lemma_budgets_stay_positive(arguments, usage, 0, initial_options());
}

proof fn lemma_budgets_stay_positive(
    arguments: Seq<Seq<char>>,
    usage: Seq<char>,
    index: int,
    options: PartialView,
)
    requires
        options.max_tokens > 0,
        options.context_length > 0,
    ensures
        options_from(arguments, usage, index, options) is Ok ==> {
            let read = options_from(arguments, usage, index, options)->Ok_0;
            read.max_tokens > 0 && read.context_length > 0
        },
    decreases arguments.len() - index,
{
    if index < arguments.len() {
        let name = arguments[index];
        if name == "--raw"@ {
            lemma_budgets_stay_positive(
                arguments,
                usage,
                index + 1,
                PartialView { raw: true, ..options },
            );
        } else if !dashed(name) && options.model is None {
            lemma_budgets_stay_positive(
                arguments,
                usage,
                index + 1,
                PartialView { model: Some(name), ..options },
            );
        } else if index + 1 < arguments.len() {
            let next = with_option(options, name, arguments[index + 1], usage);
            if next is Ok {
                lemma_budgets_stay_positive(arguments, usage, index + 2, next->Ok_0);
            }
        }
    }
}

} // verus!
