use grok_cli::agent::{AgentEvent, StopReason};
use grok_cli::api::types::Usage;
use grok_cli::config::PermissionMode;
use grok_cli::headless::{
    usage_line, warnings, Run, EXIT_BLOCKED, EXIT_ERROR, EXIT_INTERRUPTED, EXIT_OK,
    EXIT_TOOL_LIMIT,
};
use grok_cli::tools::ToolDisplay;
use grok_cli::util::Duration;

fn denied() -> AgentEvent {
    AgentEvent::ToolDenied { id: "1".into(), name: "bash".into(), reason: "no one to ask".into() }
}

fn ended(stop_reason: StopReason) -> AgentEvent {
    AgentEvent::TurnComplete { stop_reason }
}

#[test]
fn exit_codes_are_distinct_so_callers_can_tell_failures_apart() {
    let codes = [EXIT_OK, EXIT_ERROR, EXIT_TOOL_LIMIT, EXIT_BLOCKED, EXIT_INTERRUPTED];
    let mut sorted = codes.to_vec();
    sorted.sort_unstable();
    sorted.dedup();
    assert_eq!(sorted.len(), codes.len(), "duplicate exit codes lose information");
}

#[test]
fn interruption_uses_the_conventional_signal_exit_code() {
    // 128 + SIGINT(2), which is what a shell reports for Ctrl+C.
    assert_eq!(EXIT_INTERRUPTED, 130);
}

#[test]
fn the_answer_is_collected_and_progress_goes_elsewhere() {
    let mut run = Run::new();
    assert_eq!(run.take(AgentEvent::Text("Hel".into())), None);
    assert_eq!(run.take(AgentEvent::Text("lo\n".into())), None);
    let started = AgentEvent::ToolStarted {
        id: "1".into(),
        name: "bash".into(),
        summary: "Bash(ls)".into(),
    };
    assert_eq!(run.take(started).as_deref(), Some("· Bash(ls)"));
    let finished = AgentEvent::ToolFinished {
        id: "1".into(),
        name: "bash".into(),
        outcome_summary: Some("exit 1".into()),
        display: ToolDisplay::default(),
        is_error: true,
        duration: Duration::from_millis(1),
    };
    assert_eq!(run.take(finished).as_deref(), Some("  bash failed: exit 1"));
    assert_eq!(
        run.take(AgentEvent::Compacted { dropped: 3, summary: "s".into() }).as_deref(),
        Some("· compacted 3 earlier messages")
    );
    assert_eq!(run.take(AgentEvent::Warning("w".into())).as_deref(), Some("warning: w"));
    run.take(ended(StopReason::Complete));
    let end = run.finish();
    assert_eq!(end.answer.as_deref(), Some("Hello"));
    assert_eq!(end.message, None);
    assert_eq!(end.code, EXIT_OK);
}

#[test]
fn a_run_that_was_refused_everything_is_no_success() {
    let mut run = Run::new();
    assert_eq!(run.take(denied()).as_deref(), Some("  bash refused: no one to ask"));
    run.take(ended(StopReason::Complete));
    let end = run.finish();
    assert_eq!(end.code, EXIT_BLOCKED);
    assert_eq!(end.answer, None);
    assert!(end.message.unwrap().contains("--yes"));

    let mut talkative = Run::new();
    talkative.take(denied());
    talkative.take(AgentEvent::Text("I could not.".into()));
    assert_eq!(talkative.finish().code, EXIT_OK);
}

#[test]
fn each_way_to_stop_has_its_code() {
    for (stop, code, word) in [
        (StopReason::Interrupted, EXIT_INTERRUPTED, "interrupted"),
        (
            StopReason::ToolLimitReached { limit: 7 },
            EXIT_TOOL_LIMIT,
            "error: stopped after 7 tool calls in one turn",
        ),
        (StopReason::Error("boom".into()), EXIT_ERROR, "error: boom"),
    ] {
        let mut run = Run::new();
        run.take(ended(stop));
        let end = run.finish();
        assert_eq!(end.code, code);
        assert_eq!(end.message.as_deref(), Some(word));
    }
}

#[test]
fn a_run_is_warned_before_it_starts() {
    let failures = vec![("fs".to_string(), "not found".to_string())];
    let said = warnings(&failures, &vec!["Bash([)".into()], PermissionMode::BypassPermissions);
    assert_eq!(
        said,
        [
            "warning: MCP server `fs` unavailable: not found",
            "warning: ignoring malformed permission rules: Bash([)",
            "warning: running with permissions bypassed",
        ]
    );
    assert!(warnings(&vec![], &vec![], PermissionMode::Default).is_empty());
}

#[test]
fn costs_are_told_once_there_are_any() {
    assert_eq!(usage_line(&Usage::default()), None);
    let usage = Usage {
        prompt_tokens: 10,
        completion_tokens: 4,
        total_tokens: 14,
        prompt_tokens_details: None,
    };
    assert_eq!(usage_line(&usage).as_deref(), Some("\n10 in, 4 out, 14 total"));
}
