//! Artifact inspection uses the format reader, not model preparation or a device.

use crate::cli::options::texts;
use crate::text::{debug_text, decimal, number, quoted, same_text};
use vstd::prelude::*;

verus! {

/// How inspection is called.
pub const USAGE: &'static str = "ribn inspect <model.gguf>";

/// The metadata that names an artifact's architecture, where it holds text.
pub const ARCHITECTURE_KEY: &'static str = "general.architecture";

/// What an inspection was asked to do.
#[derive(Clone, Debug, PartialEq, Eq)]
pub enum Inspection {
    Help,
    Artifact(String),
}

/// Whether an argument asks for help.
pub open spec fn asks_for_help(argument: Seq<char>) -> bool {
    argument == "-h"@ || argument == "--help"@
}

/// Whether arguments are one request for help.
pub open spec fn only_help(arguments: Seq<Seq<char>>) -> bool {
    arguments.len() == 1 && asks_for_help(arguments[0])
}

/// Whether arguments are one request for help.
pub fn is_only_help(arguments: &[String]) -> (r: bool)
    ensures
        r == only_help(texts(arguments@)),
{
    arguments.len() == 1 && (same_text(arguments[0].as_str(), "-h") || same_text(
        arguments[0].as_str(),
        "--help",
    ))
}

/// Read the arguments of an inspection.
///
/// # Errors
/// Says in words that one artifact path is expected.
pub fn inspection(arguments: &[String]) -> (r: Result<Inspection, String>)
    ensures
        arguments@.len() != 1 ==> r is Err && r->Err_0@
            == "expected one artifact path; usage: "@ + USAGE@,
        only_help(texts(arguments@)) ==> r == Ok::<Inspection, String>(Inspection::Help),
        arguments@.len() == 1 && !only_help(texts(arguments@)) ==> r is Ok
            && r->Ok_0 is Artifact && r->Ok_0->Artifact_0@ == arguments@[0]@,
{
    if is_only_help(arguments) {
        return Ok(Inspection::Help);
    }
    if arguments.len() != 1 {
        let mut text = "expected one artifact path; usage: ".to_owned();
        text.append(USAGE);
        return Err(text);
    }
    Ok(Inspection::Artifact(arguments[0].clone()))
}

/// What an inspection reports. `path` is the path as it is shown, and an artifact that names
/// no architecture leaves it unspecified.
pub open spec fn report_text(
    path: Seq<char>,
    version: u32,
    architecture: Option<Seq<char>>,
    tensors: u64,
) -> Seq<char> {
    "artifact: "@ + path + "\nformat: GGUF v"@ + decimal(version as nat) + "\narchitecture: "@
        + debug_text(
        match architecture {
            Some(architecture) => architecture,
            None => "unspecified"@,
        },
    ) + "\ntensors: "@ + decimal(tensors as nat)
        + "\nexecution: not assessed by metadata inspection\n"@
}

/// Describe an artifact's metadata.
#[must_use]
pub fn describe(path: &str, version: u32, architecture: Option<&str>, tensors: u64) -> (r: String)
    ensures
        r@ == report_text(
            path@,
            version,
            match architecture {
                Some(architecture) => Some(architecture@),
                None => None,
            },
            tensors,
        ),
{
    let architecture = match architecture {
        Some(architecture) => architecture,
        None => "unspecified",
    };
    let mut text = "artifact: ".to_owned();
    text.append(path);
    text.append("\nformat: GGUF v");
    text.append(number(version as u64).as_str());
    text.append("\narchitecture: ");
    text.append(quoted(architecture).as_str());
    text.append("\ntensors: ");
    text.append(number(tensors).as_str());
    text.append("\nexecution: not assessed by metadata inspection\n");
    text
}

} // verus!
