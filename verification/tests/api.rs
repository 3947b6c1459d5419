use grok_cli::api::client::{
    api_error, backoff, is_done, is_retryable, stream_error, truncate, until_done, ApiClient,
    RequestOptions, Verdict, DEFAULT_BASE_URL,
};
use grok_cli::api::sse::{
    completion_from_response, DeltaAccumulator, PartialCall, SseDecoder,
    MAX_PENDING_EVENT_BYTES,
};
use grok_cli::api::types::{
    ChatChunk, ChatResponse, Choice, ChunkChoice, Delta, FunctionCallDelta, Message,
    PromptTokensDetails, StreamEvent, ToolCall, ToolCallDelta, Usage,
};
use grok_cli::json::Json;

fn delta() -> Delta {
    Delta { content: None, reasoning_content: None, tool_calls: None }
}

fn chunk_of(delta: Delta, finish_reason: Option<&str>) -> ChatChunk {
    ChatChunk {
        choices: vec![ChunkChoice { delta, finish_reason: finish_reason.map(String::from) }],
        usage: None,
    }
}

fn text_chunk(text: &str) -> ChatChunk {
    chunk_of(Delta { content: Some(text.into()), ..delta() }, None)
}

fn call_chunk(index: usize, id: Option<&str>, name: Option<&str>, arguments: &str) -> ChatChunk {
    let call = ToolCallDelta {
        index,
        id: id.map(String::from),
        kind: None,
        function: Some(FunctionCallDelta {
            name: name.map(String::from),
            arguments: Some(arguments.into()),
        }),
    };
    chunk_of(Delta { tool_calls: Some(vec![call]), ..delta() }, None)
}

#[test]
fn decoder_handles_events_split_across_chunk_boundaries() {
    let mut d = SseDecoder::new();
    assert!(d.push(b"data: {\"a\":").is_empty(), "incomplete event must not be emitted");
    let out = d.push(b"1}\n\ndata: [DONE]\n\n");
    assert_eq!(out, vec!["{\"a\":1}".to_string(), "[DONE]".to_string()]);
}

#[test]
fn decoder_normalizes_crlf_and_skips_comments() {
    let mut d = SseDecoder::new();
    let out = d.push(b": ping\r\n\r\ndata: hello\r\n\r\n");
    assert_eq!(out, vec!["hello".to_string()]);
}

#[test]
fn decoder_flushes_unterminated_trailing_event() {
    let mut d = SseDecoder::new();
    assert!(d.push(b"data: tail").is_empty());
    assert_eq!(d.finish(), vec!["tail".to_string()]);
}

#[test]
fn decoding_does_not_depend_on_where_the_stream_is_cut() {
    let text = "data: one\r\ndata: two\n\n: note\n\ndata: é😀\n\n";
    let stream = text.as_bytes();
    let mut whole = SseDecoder::new();
    let mut expected = whole.push(stream);
    expected.extend(whole.finish());
    assert_eq!(expected, ["one\ntwo", "é😀"]);
    for (cut, _) in text.char_indices() {
        let mut d = SseDecoder::new();
        let mut got = d.push(&stream[..cut]);
        got.extend(d.push(&stream[cut..]));
        got.extend(d.finish());
        assert_eq!(got, expected, "cut at {cut}");
    }
}

#[test]
fn an_event_that_never_ends_is_noticed() {
    let mut d = SseDecoder::new();
    d.push(b"data: ");
    assert!(!d.overflowed());
    d.push(&vec![b'x'; MAX_PENDING_EVENT_BYTES]);
    assert!(d.overflowed());
}

#[test]
fn accumulator_joins_text_deltas() {
    let mut acc = DeltaAccumulator::new();
    acc.push(&text_chunk("Hel"));
    acc.push(&text_chunk("lo"));
    let done = acc.finish();
    assert_eq!(done.message.content.as_deref(), Some("Hello"));
}

#[test]
fn accumulator_reassembles_fragmented_tool_arguments() {
    let mut acc = DeltaAccumulator::new();
    acc.push(&call_chunk(0, Some("c1"), Some("read_file"), "{\"pa"));
    acc.push(&call_chunk(0, None, None, "th\":\"a.rs\"}"));
    let events = acc.push(&chunk_of(delta(), Some("tool_calls")));
    assert_eq!(events.len(), 1, "the ready call is announced exactly once");

    let done = acc.finish();
    let calls = done.message.tool_calls.expect("tool calls present");
    assert_eq!(calls[0].function.name, "read_file");
    assert_eq!(calls[0].parsed_arguments().unwrap().get_str("path").as_deref(), Some("a.rs"));
}

#[test]
fn accumulator_keeps_parallel_calls_separate_and_ordered() {
    let mut acc = DeltaAccumulator::new();
    // Providers interleave fragments of parallel calls arbitrarily.
    acc.push(&call_chunk(1, Some("b"), Some("glob"), "{\"p\":2}"));
    acc.push(&call_chunk(0, Some("a"), Some("grep"), "{\"p\":1}"));
    let done = acc.finish();
    let calls = done.message.tool_calls.unwrap();
    assert_eq!(calls.len(), 2);
    assert_eq!(calls[0].function.name, "grep", "calls are ordered by streaming index");
    assert_eq!(calls[1].function.name, "glob");
}

#[test]
fn accumulator_synthesizes_ids_when_the_provider_omits_them() {
    let call =
        PartialCall { index: 3, id: String::new(), name: "x".into(), arguments: "{}".into() };
    assert_eq!(call.to_call().id, "call_3");
}

#[test]
fn accumulator_captures_usage_from_the_final_frame() {
    let mut acc = DeltaAccumulator::new();
    acc.push(&ChatChunk {
        choices: vec![],
        usage: Some(Usage {
            prompt_tokens: 11,
            completion_tokens: 3,
            total_tokens: 14,
            prompt_tokens_details: None,
        }),
    });
    assert_eq!(acc.finish().usage.total_tokens, 14);
}

#[test]
fn what_is_announced_is_what_the_finished_message_holds() {
    let usage = |n: u64| Usage { prompt_tokens: n, ..Usage::default() };
    let thought = Delta { reasoning_content: Some("hmm".into()), ..delta() };
    let chunks = vec![
        text_chunk("Let me "),
        call_chunk(1, Some("b"), Some("glob"), "{\"p\""),
        chunk_of(thought, None),
        call_chunk(0, None, Some("gr"), "{"),
        ChatChunk { choices: vec![], usage: Some(usage(5)) },
        call_chunk(1, Some(""), None, ":2}"),
        text_chunk("look."),
        call_chunk(0, None, Some("ep"), "}"),
        chunk_of(delta(), Some("tool_calls")),
        chunk_of(delta(), Some("tool_calls")),
        ChatChunk { choices: vec![], usage: Some(usage(9)) },
    ];
    let mut acc = DeltaAccumulator::new();
    let (mut text, mut reasoning, mut ready) = (String::new(), String::new(), vec![]);
    for chunk in &chunks {
        for event in acc.push(chunk) {
            match event {
                StreamEvent::Text(t) => text.push_str(&t),
                StreamEvent::Reasoning(t) => reasoning.push_str(&t),
                StreamEvent::ToolCallReady(call) => {
                    assert_eq!(chunk.choices[0].finish_reason.as_deref(), Some("tool_calls"));
                    ready.push(call.id);
                }
                StreamEvent::Done(_) => panic!("a chunk does not end a stream"),
            }
        }
    }
    assert_eq!(text, "Let me look.");
    assert_eq!(reasoning, "hmm");
    assert_eq!(ready, ["call_0", "b"], "each call is announced once");

    let done = acc.finish();
    assert_eq!(done.message.content.as_deref(), Some("Let me look."));
    assert_eq!(done.usage.prompt_tokens, 9);
    let calls = done.message.tool_calls.unwrap();
    let held: Vec<(&str, &str, &str)> = calls
        .iter()
        .map(|c| (c.id.as_str(), c.function.name.as_str(), c.function.arguments.as_str()))
        .collect();
    assert_eq!(held, [("call_0", "grep", "{}"), ("b", "glob", "{\"p\":2}")]);
}

#[test]
fn streamed_text_is_announced_as_it_comes() {
    let mut acc = DeltaAccumulator::new();
    let events = acc.push(&text_chunk("Hel"));
    assert_eq!(events.len(), 1);
    assert!(matches!(&events[0], StreamEvent::Text(t) if t == "Hel"));
}

#[test]
fn only_rate_limits_and_server_errors_are_retried() {
    assert!(is_retryable(429));
    assert!(is_retryable(502));
    assert!(!is_retryable(401));
    assert!(!is_retryable(400));
}

#[test]
fn truncate_never_splits_a_code_point() {
    let s = "aaaa😀bbbb";
    let out = truncate(s, 5);
    assert!(out.starts_with("aaaa"), "got {out}");
    assert!(out.contains("bytes total"));
}

#[test]
fn streaming_requests_ask_for_usage_and_omit_empty_tool_lists() {
    let client = ApiClient::new("k", DEFAULT_BASE_URL);
    let opts = RequestOptions::default();
    let req = client.build_request(vec![Message::user("hi")], vec![], &opts, true);
    assert!(req.stream_options.is_some_and(|o| o.include_usage));
    assert!(req.tools.is_none(), "empty tool list must be omitted");
    assert!(req.reasoning_effort.is_none());
}

#[test]
fn non_streaming_requests_omit_stream_options() {
    let client = ApiClient::new("k", DEFAULT_BASE_URL);
    let req = client.build_request(vec![], vec![], &RequestOptions::default(), false);
    assert!(req.stream_options.is_none());
    assert!(!req.stream);
}

#[test]
fn endpoint_tolerates_a_trailing_slash_in_the_base_url() {
    let c = ApiClient::new("k", "https://example.com/v1/");
    assert_eq!(c.endpoint(), "https://example.com/v1/chat/completions");
}

#[test]
fn attempts_are_limited() {
    let c = ApiClient::new("k", DEFAULT_BASE_URL).with_max_retries(1);
    assert!(matches!(c.after_attempt(0, Some(200)), Verdict::Accept));
    assert!(matches!(c.after_attempt(0, Some(503)), Verdict::Retry));
    assert!(matches!(c.after_attempt(0, None), Verdict::Retry));
    assert!(matches!(c.after_attempt(1, Some(503)), Verdict::Fail));
    assert!(matches!(c.after_attempt(0, Some(401)), Verdict::Fail));
}

#[test]
fn a_server_can_ask_for_more_patience() {
    let asked = backoff(1, Some("7"));
    assert_eq!(asked.secs, 7);
    let own = backoff(1, None);
    let later = backoff(3, None);
    assert!((own.secs, own.nanos) < (later.secs, later.nanos), "waits grow");
}

#[test]
fn the_end_marker_ends_the_stream() {
    assert!(is_done("[DONE]"));
    let (before, done) = until_done(vec!["a".into(), "[DONE]".into(), "b".into()]);
    assert_eq!(before, ["a"]);
    assert!(done);
    assert_eq!(
        stream_error("{\"error\":{\"message\":\"quota\"}}").as_deref(),
        Some("API error mid-stream: {\"message\":\"quota\"}")
    );
    assert_eq!(stream_error("{\"choices\":[]}"), None);
    assert_eq!(stream_error("not json"), None);
    assert!(api_error("401 Unauthorized", "bad key").contains("bad key"));
}

#[test]
fn empty_arguments_parse_as_an_empty_object() {
    let call = ToolCall::new("1", "noop", "");
    assert_eq!(call.parsed_arguments().unwrap(), Json::Object(vec![]));
}

#[test]
fn broken_arguments_are_an_error() {
    assert!(ToolCall::new("1", "noop", "{").parsed_arguments().is_err());
    let parsed = ToolCall::new("1", "t", "{\"n\":-3,\"f\":1.5,\"l\":[null,true]}")
        .parsed_arguments()
        .unwrap();
    assert_eq!(parsed.get("n"), Some(&Json::NegInt(-3)));
    assert_eq!(parsed.get("f"), Some(&Json::Fraction("1.5".into())));
    assert_eq!(parsed.get("l"), Some(&Json::Array(vec![Json::Null, Json::Bool(true)])));
}

#[test]
fn usage_accumulates_across_turns() {
    let mut total = Usage::default();
    total.add(&Usage {
        prompt_tokens: 10,
        completion_tokens: 5,
        total_tokens: 15,
        prompt_tokens_details: None,
    });
    total.add(&Usage {
        prompt_tokens: 20,
        completion_tokens: 7,
        total_tokens: 27,
        prompt_tokens_details: Some(PromptTokensDetails { cached_tokens: 8 }),
    });
    assert_eq!(total.prompt_tokens, 30);
    assert_eq!(total.completion_tokens, 12);
    assert_eq!(total.cached_tokens(), 8);
}

#[test]
fn tool_results_carry_their_call_id() {
    let m = Message::tool_result("call_1", "ok");
    assert_eq!(m.role, "tool");
    assert_eq!(m.tool_call_id.as_deref(), Some("call_1"));
    assert!(m.tool_calls.is_none());
}

#[test]
fn a_response_without_choices_is_an_error() {
    let empty = ChatResponse { choices: vec![], usage: None };
    assert!(!completion_from_response(empty).unwrap_err().message().is_empty());
    let no_message =
        ChatResponse { choices: vec![Choice { message: None, finish_reason: None }], usage: None };
    let blank = completion_from_response(no_message).unwrap();
    assert_eq!(blank.message.role, "assistant");
    assert!(!blank.has_tool_calls());
    let ok = ChatResponse {
        choices: vec![Choice {
            message: Some(Message::assistant("hi")),
            finish_reason: Some("stop".into()),
        }],
        usage: None,
    };
    let done = completion_from_response(ok).unwrap();
    assert_eq!(done.message.content.as_deref(), Some("hi"));
    assert!(!done.has_tool_calls());
}
