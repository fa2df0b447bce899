use std::io::{self, Cursor, Read};

use ribn::cli::input::{
    file_text, input_source, open_error, read_bounded, read_limit, stdin_text, InputSource,
};
use ribn::cli::inspect::{describe, inspection, Inspection};
use ribn::cli::options::{parse, RunOptions};
use ribn::cli::run::{
    combined, max_text_bytes, preparing_text, ready_text, run_request, stream_exhausted,
    stream_step, FinishReason, RunRequest, StreamStep, TextEvent,
};

fn args(values: &[&str]) -> Vec<String> {
    values.iter().map(|value| (*value).to_owned()).collect()
}

fn options(extra: &[&str]) -> RunOptions {
    let mut values = vec!["unused.gguf"];
    values.extend(extra);
    parse(&args(&values), "usage").unwrap()
}

/// Reads a source to the library's limit and hands over what came.
fn read_from(reader: impl Read, max_bytes: usize) -> Result<String, String> {
    read_bounded(gather(reader, max_bytes), max_bytes)
}

fn gather(reader: impl Read, max_bytes: usize) -> Result<Vec<u8>, String> {
    let limit = read_limit(max_bytes)?;
    let mut bytes = Vec::new();
    reader
        .take(limit)
        .read_to_end(&mut bytes)
        .map_err(|error| error.to_string())?;
    Ok(bytes)
}

fn read_with_stdin(
    options: &mut RunOptions,
    max_bytes: usize,
    terminal: bool,
    stdin: impl Read,
) -> Result<String, String> {
    match input_source(options, max_bytes, terminal)? {
        InputSource::Text(text) => Ok(text),
        InputSource::File(path) => Err(open_error(&path, "no files here")),
        InputSource::Stdin => stdin_text(gather(stdin, max_bytes), max_bytes),
    }
}

#[test]
fn parses_positional_model_and_explicit_raw_prompt() {
    let options = parse(
        &args(&["test.gguf", "--prompt", "--help", "--raw", "--device", "2"]),
        "usage",
    )
    .unwrap();
    assert_eq!(options.prompt.as_deref(), Some("--help"));
    assert_eq!(options.model, "test.gguf");
    assert!(options.raw);
    assert_eq!(options.max_tokens, 32);
    assert_eq!(options.context_length, 4096);
    assert_eq!(options.device, 2);
}

#[test]
fn keeps_model_flag_compatible_and_accepts_file_input() {
    let options = parse(
        &args(&[
            "--model",
            "test.gguf",
            "--file",
            "prompt.txt",
            "--context-length",
            "8192",
        ]),
        "usage",
    )
    .unwrap();
    assert_eq!(options.file, Some("prompt.txt".to_owned()));
    assert_eq!(options.context_length, 8192);
}

#[test]
fn rejects_conflicts_and_invalid_values() {
    assert!(parse(&[], "usage").is_err());
    assert!(parse(&args(&["--model"]), "usage").is_err());
    assert!(parse(
        &args(&["m.gguf", "--prompt", "hi", "--file", "prompt.txt"]),
        "usage"
    )
    .is_err());
    for option in [
        ["--max-tokens", "0"],
        ["--context-length", "0"],
        ["--device", "-1"],
        ["--unknown", "1"],
    ] {
        let mut arguments = args(&["m.gguf", "--prompt", "hi"]);
        arguments.extend(args(&option));
        assert!(parse(&arguments, "usage").is_err());
    }
}

#[test]
fn refusals_say_what_is_wrong() {
    let refused = |values: &[&str]| parse(&args(values), "U").unwrap_err();
    assert_eq!(refused(&[]), "model is required; usage: U");
    assert_eq!(
        refused(&["--model"]),
        "missing value for --model; usage: U"
    );
    assert_eq!(
        refused(&["a.gguf", "--model", "b.gguf"]),
        "model may be specified only once"
    );
    assert_eq!(
        refused(&["a.gguf", "--prompt", "x", "--file", "y"]),
        "--prompt and --file are mutually exclusive"
    );
    assert_eq!(
        refused(&["a.gguf", "--max-tokens", "many"]),
        "--max-tokens expects a positive integer"
    );
    assert_eq!(
        refused(&["a.gguf", "--max-tokens", "0"]),
        "--max-tokens must be greater than zero"
    );
    assert_eq!(
        refused(&["a.gguf", "--context-length", "4294967296"]),
        "--context-length expects a positive integer"
    );
    assert_eq!(
        refused(&["a.gguf", "--device", "65536"]),
        "--device expects a non-negative device ordinal"
    );
    assert_eq!(
        refused(&["a.gguf", "--x\"\n", "1"]),
        "unknown local option \"--x\\\"\\n\"; usage: U"
    );
    assert_eq!(
        refused(&["a.gguf", "b.gguf", "1"]),
        "unknown local option \"b.gguf\"; usage: U"
    );
}

#[test]
fn numbers_are_read_as_the_standard_library_reads_them() {
    for text in [
        "", "+", "-", "-0", "+0", "0", "00", "7", "+7", "++7", "007", " 7", "7 ", "7a", "4294967295",
        "4294967296", "00000000000000000000004294967295", "99999999999999999999999", "1_0", "٣",
    ] {
        let expected = match text.parse::<u32>() {
            Ok(0) => Err("--max-tokens must be greater than zero".to_owned()),
            Ok(found) => Ok(found),
            Err(_) => Err("--max-tokens expects a positive integer".to_owned()),
        };
        let found =
            parse(&args(&["m", "--max-tokens", text]), "U").map(|options| options.max_tokens);
        assert_eq!(found, expected, "{text:?}");
        let device = parse(&args(&["m", "--device", text]), "U").map(|options| options.device);
        assert_eq!(device.ok(), text.parse::<u16>().ok(), "{text:?}");
    }
}

#[test]
fn accepts_exact_byte_limit_and_preserves_utf8() {
    assert_eq!(read_from("é!".as_bytes(), 3).unwrap(), "é!");
    assert_eq!(read_from(io::empty(), 0).unwrap(), "");
    assert!(read_from("é".as_bytes(), 1).unwrap_err().contains("limit"));
    assert!(read_from(&[0xff][..], 1).unwrap_err().contains("UTF-8"));
}

#[test]
fn reads_only_one_probe_byte_past_the_limit() {
    let mut endless = io::repeat(b'x');
    assert!(read_from(&mut endless, 8).unwrap_err().contains("8-byte"));
    let mut source = Cursor::new(vec![b'x'; 100]);
    assert!(read_from(&mut source, 8).is_err());
    assert_eq!(source.position(), 9);
}

#[test]
fn propagates_read_errors() {
    struct Broken;
    impl Read for Broken {
        fn read(&mut self, _: &mut [u8]) -> io::Result<usize> {
            Err(io::Error::other("read failed"))
        }
    }
    assert!(read_from(Broken, 8).unwrap_err().contains("read failed"));
}

#[test]
fn prompt_is_moved_and_checked_without_reading_stdin() {
    let mut opts = options(&["--prompt", "é!"]);
    assert_eq!(
        read_with_stdin(&mut opts, 3, true, io::empty()).unwrap(),
        "é!"
    );
    assert!(opts.prompt.is_none());
    let error =
        read_with_stdin(&mut options(&["--prompt", "é!"]), 2, true, io::empty()).unwrap_err();
    assert!(error.contains("2-byte"));
}

#[test]
fn file_input_uses_the_same_bound() {
    let mut opts = options(&["--file", "input.txt"]);
    assert_eq!(
        input_source(&mut opts, 5, true),
        Ok(InputSource::File("input.txt".to_owned()))
    );
    let accepted = file_text("input.txt", gather(&b"text!"[..], 5), 5);
    let rejected = file_text("input.txt", gather(&b"text!"[..], 4), 4);
    assert_eq!(accepted.unwrap(), "text!");
    assert_eq!(
        rejected.unwrap_err(),
        "failed to read input.txt: input exceeds the 4-byte text limit"
    );
    assert_eq!(
        open_error("input.txt", "no such file"),
        "failed to open input.txt: no such file"
    );
}

#[test]
fn stdin_rejects_empty_terminal_and_oversized_input() {
    assert!(read_with_stdin(&mut options(&[]), 4, false, io::empty())
        .unwrap_err()
        .contains("no input"));
    assert!(read_with_stdin(&mut options(&[]), 4, true, io::empty())
        .unwrap_err()
        .contains("interactive"));
    assert!(
        read_with_stdin(&mut options(&[]), 4, false, io::repeat(b'x'))
            .unwrap_err()
            .contains("4-byte")
    );
    assert_eq!(
        read_with_stdin(&mut options(&[]), 4, false, &b"text"[..]).unwrap(),
        "text"
    );
}

#[test]
fn size_is_tested_before_encoding() {
    // The limit cuts the two bytes of the character apart.
    assert_eq!(
        read_from("aé".as_bytes(), 1).unwrap_err(),
        "input exceeds the 1-byte text limit"
    );
    let invalid = vec![b'a', 0xC3];
    let expected = String::from_utf8(invalid.clone()).unwrap_err().to_string();
    assert_eq!(
        read_bounded(Ok(invalid), 2).unwrap_err(),
        format!("input is not valid UTF-8: {expected}")
    );
    assert_eq!(
        stdin_text(Err("broken pipe".to_owned()), 2).unwrap_err(),
        "failed to read stdin: broken pipe"
    );
}

#[test]
fn inspection_requires_one_path() {
    assert!(inspection(&[]).is_err());
    assert!(inspection(&args(&["a", "b"])).is_err());
    assert_eq!(
        inspection(&[]).unwrap_err(),
        "expected one artifact path; usage: ribn inspect <model.gguf>"
    );
    assert_eq!(inspection(&args(&["--help"])), Ok(Inspection::Help));
    assert_eq!(
        inspection(&args(&["a.gguf"])),
        Ok(Inspection::Artifact("a.gguf".to_owned()))
    );
}

#[test]
fn inspection_accepts_unknown_model_architecture_without_a_gpu() {
    let report = describe("\"m.gguf\"", 3, Some("new_model"), 0);
    assert!(report.contains("architecture: \"new_model\""));
    assert!(report.contains("execution: not assessed"));
    assert_eq!(
        describe("\"m.gguf\"", 3, None, 12),
        "artifact: \"m.gguf\"\nformat: GGUF v3\narchitecture: \"unspecified\"\ntensors: 12\nexecution: not assessed by metadata inspection\n"
    );
}

#[test]
fn text_limits_leave_room_for_the_chat_role() {
    let limit = ribn::cli::run::MAX_INPUT_BYTES;
    assert_eq!(limit, 256 * 1024);
    assert_eq!(ribn::cli::run::CHAT_ROLE.len(), 4);
    assert_eq!(max_text_bytes(limit, 4, true), Ok(limit));
    assert_eq!(max_text_bytes(limit, 4, false), Ok(limit - 4));
    assert_eq!(
        max_text_bytes(3, 4, false),
        Err("input byte limit cannot hold the chat role".to_owned())
    );
    assert_eq!(max_text_bytes(3, 4, true), Ok(3));
}

#[test]
fn oversized_stdin_is_rejected_before_model_loading() {
    for (raw, limit) in [(true, 256 * 1024), (false, 256 * 1024 - 4)] {
        let max = max_text_bytes(256 * 1024, 4, raw).unwrap();
        assert_eq!(max, limit);
        let bytes = vec![b'x'; limit + 1];
        assert_eq!(
            stdin_text(gather(&bytes[..], max), max).unwrap_err(),
            format!("failed to read stdin: input exceeds the {limit}-byte text limit")
        );
    }
}

#[test]
fn exact_limit_reaches_model_loading_in_raw_and_chat_modes() {
    for raw in [true, false] {
        let max = max_text_bytes(256 * 1024, 4, raw).unwrap();
        let bytes = vec![b'x'; max];
        assert_eq!(
            stdin_text(gather(&bytes[..], max), max).map(|text| text.len()),
            Ok(max)
        );
    }
}

#[test]
fn runs_end_with_their_terminal_event() {
    assert_eq!(
        stream_step(Ok(TextEvent::Delta("a".to_owned()))),
        StreamStep::Write("a".to_owned())
    );
    for reason in [FinishReason::Length, FinishReason::Stop] {
        assert_eq!(
            stream_step(Ok(TextEvent::Finished(reason))),
            StreamStep::End(Ok(()))
        );
    }
    assert_eq!(
        stream_step(Ok(TextEvent::Finished(FinishReason::Cancelled))),
        StreamStep::End(Err("generation was cancelled".to_owned()))
    );
    assert_eq!(
        stream_step(Ok(TextEvent::Finished(FinishReason::Failed("x".to_owned())))),
        StreamStep::End(Err("x".to_owned()))
    );
    assert_eq!(
        stream_step(Err("lost".to_owned())),
        StreamStep::End(Err("lost".to_owned()))
    );
    assert_eq!(
        stream_exhausted(),
        Err("generation ended without a terminal event".to_owned())
    );
}

#[test]
fn a_failed_shutdown_is_reported_beside_the_run() {
    let error = |text: &str| Err(text.to_owned());
    assert_eq!(combined(Ok(()), Ok(())), Ok(()));
    assert_eq!(combined(error("run"), Ok(())), error("run"));
    assert_eq!(combined(Ok(()), error("stop")), error("stop"));
    assert_eq!(
        combined(error("run"), error("stop")),
        error("run; shutdown also failed: stop")
    );
}

#[test]
fn runs_announce_what_they_prepare() {
    assert_eq!(run_request(&args(&["-h"])), Ok(RunRequest::Help));
    assert!(matches!(
        run_request(&args(&["m.gguf"])),
        Ok(RunRequest::Run(options)) if options.model == "m.gguf"
    ));
    assert!(run_request(&[]).unwrap_err().contains("usage: ribn run"));
    assert_eq!(
        preparing_text(2, 4096),
        "preparing model on CUDA device 2 with 4096-token context capacity (experimental Ribn runtime)"
    );
    assert_eq!(
        ready_text(10, u64::MAX),
        "ready: 10 bytes reserved for sequence state; 18446744073709551615 device bytes free after preparation"
    );
}
