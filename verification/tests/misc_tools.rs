use grok_cli::api::types::ToolCall;
use grok_cli::json::Json;
use grok_cli::tools::misc::{
    strip_html, FetchFailure, TodoWrite, WebFetch, MAX_DOWNLOAD_BYTES,
};
use grok_cli::tools::{TodoStatus, ToolContext};

fn json(text: &str) -> Json {
    ToolCall::new("c", "t", text).parsed_arguments().unwrap()
}

fn ctx() -> ToolContext {
    ToolContext::new("/repo")
}

#[test]
fn todo_write_replaces_the_list_and_reports_progress() {
    let mut ctx = ctx();
    let out = TodoWrite.run(
        &json(
            r#"{"todos": [
                {"content": "write the parser", "status": "completed"},
                {"content": "wire up the loop", "status": "in_progress"},
                {"content": "add tests", "status": "pending"}
            ]}"#,
        ),
        &mut ctx,
    );

    assert!(!out.is_error, "got: {}", out.content);
    assert_eq!(out.display.summary.as_deref(), Some("1/3 done"));
    assert!(out.content.contains("☑ write the parser"));
    assert!(out.content.contains("◐ wire up the loop"));
    assert_eq!(ctx.todos.len(), 3);
    assert_eq!(ctx.todos[2].status, TodoStatus::Pending);
}

#[test]
fn todo_write_flags_more_than_one_active_task_without_failing() {
    let out = TodoWrite.run(
        &json(
            r#"{"todos": [
                {"content": "a", "status": "in_progress"},
                {"content": "b", "status": "in_progress"}
            ]}"#,
        ),
        &mut ctx(),
    );
    assert!(!out.is_error, "a planning smell is a nudge, not a failure");
    assert!(out.content.contains("Keep exactly one active"), "got: {}", out.content);
}

#[test]
fn todo_write_rejects_an_unknown_status() {
    let mut ctx = ctx();
    let out = TodoWrite
        .run(&json(r#"{"todos": [{"content": "a", "status": "almost"}]}"#), &mut ctx);
    assert!(out.is_error);
    assert!(out.content.contains("unknown status `almost`"), "got: {}", out.content);
    assert!(ctx.todos.is_empty(), "the list stays what it was");
}

#[test]
fn web_fetch_refuses_non_web_schemes() {
    let out = WebFetch.request(&json(r#"{"url": "file:///etc/passwd"}"#)).unwrap_err();
    assert!(out.is_error);
    assert!(out.content.contains("not an http or https URL"), "got: {}", out.content);
    assert_eq!(WebFetch.request(&json(r#"{"url": "https://x.ai"}"#)).unwrap(), "https://x.ai");
}

#[test]
fn downloads_stop_at_the_limit() {
    let mut collected = vec![0u8; MAX_DOWNLOAD_BYTES - 2];
    assert!(!WebFetch.take_chunk(&mut collected, &[1]));
    assert!(WebFetch.take_chunk(&mut collected, &[1, 2, 3]));
    assert_eq!(collected.len(), MAX_DOWNLOAD_BYTES);
}

#[test]
fn html_stripping_drops_scripts_and_keeps_prose() {
    let html = "<html><head><style>body{color:red}</style>\
        <script>var x = 1 < 2;</script></head>\
        <body><h1>Title</h1><p>Hello &amp; welcome</p></body></html>";
    let text = strip_html(html);
    assert!(text.contains("Title"));
    assert!(text.contains("Hello & welcome"), "entities are decoded: {text}");
    assert!(!text.contains("color:red"), "style bodies are dropped: {text}");
    assert!(!text.contains("var x"), "script bodies are dropped: {text}");
}

#[test]
fn html_stripping_collapses_blank_line_runs() {
    let text = strip_html("<div></div><div></div><p>only line</p>");
    assert_eq!(text, "only line");
}

#[test]
fn a_page_that_cannot_be_had_is_an_error_that_says_why() {
    let said = |failure: FetchFailure| {
        let outcome = WebFetch.failed("https://x.ai", &failure);
        assert!(outcome.is_error);
        outcome.content
    };
    assert_eq!(said(FetchFailure::Interrupted), "fetch interrupted by the user");
    assert_eq!(said(FetchFailure::NotSent("dns".into())), "cannot fetch https://x.ai: dns");
    assert_eq!(
        said(FetchFailure::Status("404 Not Found".into())),
        "https://x.ai returned HTTP 404 Not Found"
    );
    assert_eq!(said(FetchFailure::Broken("reset".into())), "cannot read body of https://x.ai: reset");
}
