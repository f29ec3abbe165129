use delve::amp_stream::{parse_amp_stream_json_line, AmpStreamState};
use delve::providers::{
    amp_thread_id, build_amp_continue_args, build_anthropic_args, command_response,
    extract_thread_id, looks_like_thread_id, thread_id_from_output, CompletionProvider,
    EchoProvider, ProviderError, ProviderKind, ProviderRequest,
};

#[test]
fn echo_provider_returns_wrapped_prompt() {
    let provider = EchoProvider;
    let response = provider
        .generate(&ProviderRequest {
            prompt: String::from("hello"),
            thread_id: Some(String::from("thread-123")),
        })
        .expect("echo provider should never fail");

    assert_eq!(response.output, "echo:hello");
    assert_eq!(response.thread_id.as_deref(), Some("thread-123"));
}

#[test]
fn echo_provider_streaming_calls_chunk_handler() {
    let provider = EchoProvider;
    let mut chunks = String::new();
    let response = provider
        .generate_streaming(
            &ProviderRequest {
                prompt: String::from("stream"),
                thread_id: Some(String::from("thread-456")),
            },
            &mut |chunk: &str| chunks.push_str(chunk),
        )
        .expect("echo streaming should never fail");

    assert_eq!(response.output, "echo:stream");
    assert_eq!(response.thread_id.as_deref(), Some("thread-456"));
    assert_eq!(chunks, "echo:stream");
}

#[test]
fn thread_id_parser_extracts_amp_thread_tokens() {
    let output = "Created thread T-12345678-1234-1234-1234-1234567890ab";
    let thread_id = extract_thread_id(output).expect("thread id should parse");
    assert_eq!(thread_id, "T-12345678-1234-1234-1234-1234567890ab");
    assert!(looks_like_thread_id(&thread_id));
}

#[test]
fn amp_stream_json_parser_emits_assistant_text_and_extracts_result() {
    let mut streamed_text = String::new();
    let mut final_result = None;
    let mut raw_output = String::new();

    parse_amp_stream_json_line(
        &ProviderKind::Amp,
        "{\"type\":\"assistant\",\"message\":{\"content\":[{\"text\":\"First \"},{\"text\":\"second\"}]}}",
        &mut |chunk: &str| streamed_text.push_str(chunk),
        &mut final_result,
        &mut raw_output,
    )
    .expect("assistant message should parse");
    parse_amp_stream_json_line(
        &ProviderKind::Amp,
        "{\"type\":\"result\",\"result\":\"Final artifact\"}",
        &mut |_chunk: &str| {},
        &mut final_result,
        &mut raw_output,
    )
    .expect("result message should parse");

    assert_eq!(streamed_text, "First second");
    assert_eq!(final_result.as_deref(), Some("Final artifact"));
}

#[test]
fn amp_stream_json_parser_rejects_invalid_json_lines() {
    let mut final_result = None;
    let mut raw_output = String::new();

    let error = parse_amp_stream_json_line(
        &ProviderKind::Amp,
        "not-json",
        &mut |_chunk: &str| {},
        &mut final_result,
        &mut raw_output,
    )
    .expect_err("invalid line should fail");

    assert!(matches!(
        error,
        ProviderError::StreamJsonParseFailed { provider: ProviderKind::Amp, .. }
    ));
}

#[test]
fn non_string_results_are_rendered_as_json_and_missing_results_fail() {
    let mut final_result = None;
    let mut raw_output = String::new();
    parse_amp_stream_json_line(
        &ProviderKind::Amp,
        "  {\"type\":\"result\",\"result\":{\"a\":[1,true,null]}}  ",
        &mut |_chunk: &str| {},
        &mut final_result,
        &mut raw_output,
    )
    .expect("result should parse");
    assert_eq!(final_result.as_deref(), Some("{\"a\":[1,true,null]}"));
    assert_eq!(raw_output, "{\"type\":\"result\",\"result\":{\"a\":[1,true,null]}}");

    let error = parse_amp_stream_json_line(
        &ProviderKind::Amp,
        "{\"type\":\"result\"}",
        &mut |_chunk: &str| {},
        &mut final_result,
        &mut raw_output,
    )
    .expect_err("result without result should fail");
    assert_eq!(
        error,
        ProviderError::MissingResult {
            provider: ProviderKind::Amp,
            output: String::from(
                "{\"type\":\"result\",\"result\":{\"a\":[1,true,null]}}\n{\"type\":\"result\"}"
            ),
        }
    );
    assert_eq!(final_result.as_deref(), Some("{\"a\":[1,true,null]}"));
}

#[test]
fn stream_state_reads_lines_across_chunks() {
    let mut state = AmpStreamState::new();
    let mut seen = String::new();
    state
        .push_chunk(
            &ProviderKind::Amp,
            "{\"type\":\"assistant\",\"message\":{\"content\":[{\"te",
            &mut |c: &str| seen.push_str(c),
        )
        .expect("partial line waits");
    assert_eq!(seen, "");
    state
        .push_chunk(
            &ProviderKind::Amp,
            "xt\":\"Hi\"}]}}\r\n\n{\"type\":\"result\",\"result\":\"Done\"}",
            &mut |c: &str| seen.push_str(c),
        )
        .expect("complete line is read");
    assert_eq!(seen, "Hi");
    assert_eq!(state.final_result, None);
    state.finish(&ProviderKind::Amp, &mut |c: &str| seen.push_str(c)).expect("final line");
    let response = state
        .into_response(ProviderKind::Amp, true, Some(0), "")
        .expect("response should be complete");
    assert_eq!(response.output, "Done");
    assert_eq!(response.thread_id, None);
}

#[test]
fn stream_state_reports_failed_commands_and_missing_results() {
    let state = AmpStreamState::new();
    let failed = state.into_response(ProviderKind::Amp, false, Some(2), "  boom \n");
    assert_eq!(
        failed.unwrap_err(),
        ProviderError::CommandFailed {
            provider: ProviderKind::Amp,
            status_code: Some(2),
            stderr: String::from("boom"),
        }
    );
    let mut state = AmpStreamState::new();
    state
        .push_chunk(&ProviderKind::Amp, "{\"type\":\"system\"}\n", &mut |_c: &str| {})
        .expect("system line");
    let missing = state.into_response(ProviderKind::Amp, true, Some(0), "");
    assert_eq!(
        missing.unwrap_err(),
        ProviderError::MissingResult {
            provider: ProviderKind::Amp,
            output: String::from("{\"type\":\"system\"}"),
        }
    );
}

#[test]
fn provider_error_messages_name_the_provider() {
    let e = ProviderError::CommandFailed {
        provider: ProviderKind::Anthropic,
        status_code: Some(-3),
        stderr: String::from("bad"),
    };
    assert_eq!(e.message(), "provider Anthropic failed with status Some(-3): bad");
    let e = ProviderError::CommandFailed {
        provider: ProviderKind::Amp,
        status_code: None,
        stderr: String::from("x"),
    };
    assert_eq!(e.message(), "provider Amp failed with status None: x");
    assert_eq!(
        ProviderError::MissingThreadId { provider: ProviderKind::Amp }.message(),
        "provider Amp requires a thread id"
    );
    assert_eq!(
        ProviderError::StreamJsonParseFailed {
            provider: ProviderKind::Amp,
            line: String::from("l"),
            error_message: String::from("m"),
        }
        .message(),
        "provider Amp returned invalid stream-json line 'l': m"
    );
}

#[test]
fn command_arguments_and_outcomes() {
    assert_eq!(
        build_amp_continue_args("T-1", "go"),
        vec!["--no-color", "threads", "continue", "T-1", "-x", "go", "--stream-json"]
    );
    assert_eq!(build_anthropic_args("go"), vec!["-p", "--output-format", "text", "go"]);
    let ok = command_response(ProviderKind::Anthropic, true, Some(0), " out \n", "err")
        .expect("success");
    assert_eq!(ok.output, "out");
    let request = ProviderRequest { prompt: String::from("p"), thread_id: None };
    assert_eq!(
        amp_thread_id(&request),
        Err(ProviderError::MissingThreadId { provider: ProviderKind::Amp })
    );
    assert_eq!(
        thread_id_from_output(String::from("no id here")),
        Err(ProviderError::ThreadIdParseFailed {
            provider: ProviderKind::Amp,
            output: String::from("no id here"),
        })
    );
    assert_eq!(
        thread_id_from_output(String::from("(T-12345678-1234-1234-1234-1234567890ab).")),
        Ok(Some(String::from("T-12345678-1234-1234-1234-1234567890ab")))
    );
}

#[test]
fn echo_provider_has_no_provider_thread() {
    assert_eq!(EchoProvider.create_thread(), Ok(None));
}
