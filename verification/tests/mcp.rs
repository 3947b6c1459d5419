use grok_cli::api::types::ToolCall;
use grok_cli::config::McpServerConfig;
use grok_cli::json::Json;
use grok_cli::mcp::{
    as_tools, call_params, enabled, frame_line, handshake_error, initialize_params, namespaced,
    notification_frame, outcome, parse_tool_list, read_frame, remote_name, render_content,
    request_error, request_frame, server_info, summarize, CallEnd, RequestFailure,
    MAX_RESULT_BYTES,
};
use grok_cli::table::Table;
use grok_cli::tools::ToolKind;

fn json(text: &str) -> Json {
    ToolCall::new("c", "t", text).parsed_arguments().unwrap()
}

fn server(disabled: bool) -> McpServerConfig {
    McpServerConfig {
        command: "definitely-not-a-real-binary-xyz".into(),
        args: vec![],
        env: Table::new(),
        disabled,
    }
}

#[test]
fn tool_names_are_namespaced_so_a_server_cannot_shadow_a_builtin() {
    assert_eq!(namespaced("fs", "read_file"), "mcp__fs__read_file");
    // The built-in is called `read_file`; the namespaced one cannot collide.
    assert_ne!(namespaced("fs", "read_file"), "read_file");
}

#[test]
fn tool_list_parsing_accepts_both_schema_key_spellings() {
    let result = json(
        r#"{
            "tools": [
                { "name": "alpha", "description": "does alpha", "inputSchema": {"type": "object"} },
                { "name": "beta", "input_schema": {"type": "object"} }
            ]
        }"#,
    );
    let specs = parse_tool_list("srv", result);
    assert_eq!(specs.len(), 2);
    assert_eq!(specs[0].function.name, "mcp__srv__alpha");
    assert!(specs[0].function.description.starts_with("[srv] does alpha"));
    assert_eq!(specs[1].function.name, "mcp__srv__beta");
    assert!(
        specs[1].function.description.contains("no description"),
        "a missing description still yields a usable spec"
    );
}

#[test]
fn a_malformed_tool_entry_is_skipped_rather_than_failing_the_server() {
    let result = json(r#"{ "tools": [ { "description": "nameless" }, { "name": "ok" } ] }"#);
    let specs = parse_tool_list("srv", result);
    assert_eq!(specs.len(), 1, "the nameless entry is dropped, the good one survives");
    assert_eq!(specs[0].function.name, "mcp__srv__ok");
}

#[test]
fn an_empty_tool_list_is_not_an_error() {
    assert!(parse_tool_list("srv", json(r#"{ "tools": [] }"#)).is_empty());
    assert!(parse_tool_list("srv", json("{}")).is_empty());
}

#[test]
fn text_content_blocks_are_concatenated() {
    let result = json(
        r#"{ "content": [
            { "type": "text", "text": "line one" },
            { "type": "text", "text": "line two" }
        ]}"#,
    );
    assert_eq!(render_content(&result).trim(), "line one\nline two");
}

#[test]
fn unreadable_content_is_described_rather_than_dropped() {
    let result = json(
        r#"{ "content": [
            { "type": "text", "text": "here is a chart" },
            { "type": "image", "mimeType": "image/png", "data": "…" }
        ]}"#,
    );
    let text = render_content(&result);
    assert!(text.contains("here is a chart"));
    assert!(
        text.contains("image/png"),
        "the model must know something came back it cannot read: {text}"
    );
}

#[test]
fn a_result_without_a_content_array_falls_back_to_pretty_json() {
    let result = json(r#"{ "structuredContent": { "rows": 3 } }"#);
    let text = render_content(&result);
    assert!(text.contains("structuredContent"), "got: {text}");
    assert!(text.contains("rows"));
    assert_eq!(text, "{\n  \"structuredContent\": {\n    \"rows\": 3\n  }\n}");
}

#[test]
fn an_empty_content_array_says_so_instead_of_returning_nothing() {
    assert_eq!(render_content(&json(r#"{ "content": [] }"#)), "(tool returned no content)");
}

#[test]
fn only_enabled_servers_are_started() {
    let mut servers = Table::new();
    servers.insert("off".to_string(), server(true));
    servers.insert("on".to_string(), server(false));
    servers.insert("also".to_string(), server(false));
    assert_eq!(enabled(&servers), ["also", "on"]);
}

#[test]
fn borrowed_tools_may_do_anything_and_keep_their_remote_names() {
    let specs = parse_tool_list("srv", json(r#"{"tools":[{"name":"alpha"}]}"#));
    let tools = as_tools(&specs);
    assert_eq!(tools[0].kind, ToolKind::Execute);
    assert_eq!(remote_name("srv", &tools[0].name), "alpha");
    assert_eq!(summarize(&tools[0].name, &json(r#"{"q":1}"#)), "mcp__srv__alpha(q=1)");
}

#[test]
fn frames_are_matched_by_id() {
    let frame = read_frame(r#"{"jsonrpc":"2.0","id":3,"result":{"ok":true}}"#).unwrap();
    assert_eq!(frame.id, 3);
    assert_eq!(frame.payload.unwrap().get_bool("ok"), Some(true));
    let failed = read_frame(r#"{"id":4,"error":{"message":"boom"}}"#).unwrap();
    assert!(failed.payload.unwrap_err().contains("boom"));
    assert!(read_frame(r#"{"method":"notifications/x"}"#).is_none());
    assert!(read_frame("not json").is_none());
}

#[test]
fn failures_name_the_method() {
    for failure in [
        RequestFailure::TimedOut,
        RequestFailure::Closed,
        RequestFailure::Answered("boom".into()),
    ] {
        assert!(request_error("tools/list", &failure).contains("tools/list"), "{failure:?}");
    }
    assert!(server_info(&json(r#"{"serverInfo":{"name":"fs","version":"1"}}"#)).contains("fs"));
}

#[test]
fn results_are_bounded_and_errors_are_errors() {
    let ok = outcome("srv", &CallEnd::Answered(json(r#"{"content":[{"type":"text","text":"x"}]}"#)));
    assert!(!ok.is_error);
    let failed = outcome(
        "srv",
        &CallEnd::Answered(json(r#"{"isError":true,"content":[{"type":"text","text":"x"}]}"#)),
    );
    assert!(failed.is_error);
    assert!(outcome("srv", &CallEnd::Interrupted).is_error);
    assert!(outcome("srv", &CallEnd::Failed("gone".into())).is_error);
    let long = "y".repeat(MAX_RESULT_BYTES + 10);
    let text = format!("{{\"content\":[{{\"type\":\"text\",\"text\":\"{long}\"}}]}}");
    let cut = outcome("srv", &CallEnd::Answered(json(&text)));
    assert!(cut.content.contains("[truncated"));
}

#[test]
fn a_connection_begins_by_naming_the_client() {
    assert_eq!(
        frame_line(&request_frame(1, "initialize", initialize_params())),
        concat_lines(&[
            "{\"id\":1,\"jsonrpc\":\"2.0\",\"method\":\"initialize\",\"params\":",
            "{\"capabilities\":{\"tools\":{}},",
            "\"clientInfo\":{\"name\":\"grok-cli\",\"version\":\"0.1.0\"},",
            "\"protocolVersion\":\"2024-11-05\"}}\n",
        ])
    );
    assert_eq!(
        frame_line(&notification_frame("notifications/initialized", Json::Object(vec![]))),
        "{\"jsonrpc\":\"2.0\",\"method\":\"notifications/initialized\",\"params\":{}}\n"
    );
    assert_eq!(handshake_error(), "handshake timed out after 30s");
}

fn concat_lines(parts: &[&str]) -> String {
    parts.concat()
}

#[test]
fn calls_carry_the_remote_name_and_the_arguments_as_they_are() {
    let args = r#"{"deep":[1,-2,2.5,null,true,"x",{"k":[]}]}"#;
    let params = call_params("fs", "mcp__fs__read", &json(args));
    assert_eq!(
        frame_line(&request_frame(7, "tools/call", params)),
        concat_lines(&[
            "{\"id\":7,\"jsonrpc\":\"2.0\",\"method\":\"tools/call\",\"params\":{\"arguments\":",
            args,
            ",\"name\":\"read\"}}\n",
        ])
    );
    // What was sent under an id is answered under it.
    let answer = read_frame(r#"{"id":7,"result":5}"#).unwrap();
    assert_eq!((answer.id, answer.payload), (7, Ok(Json::UInt(5))));
}
