use grok_cli::agent::{Agent, AgentEvent, StopReason};
use grok_cli::api::types::{Message, Usage};
use grok_cli::commands::SlashCommand;
use grok_cli::config::{load, CliOverrides, ConfigFile, Environment, PermissionMode, DEFAULT_MODEL};
use grok_cli::session::{Session, SessionSummary};
use grok_cli::tools::{TodoItem, TodoStatus, ToolDisplay, ToolRegistry};
use grok_cli::tui::figures::format_tokens;
use grok_cli::tui::keys::{Effect, Incoming, Key, KeyCode, QUIT_WINDOW, WHEEL_LINES};
use grok_cli::tui::submit::Submitted;
use grok_cli::tui::{
    replay_session, App, NoticeLevel, Overlay, PickerKind, ToolState, TranscriptItem,
};
use grok_cli::util::Duration;

fn app() -> App {
    App::new("/repo", Some("/home/u"), "dark", DEFAULT_MODEL, PermissionMode::Default, "test-session")
}

fn key(code: KeyCode) -> Key {
    Key { code, ctrl: false, shift: false, alt: false }
}

fn ctrl(c: char) -> Key {
    Key { code: KeyCode::Char(c), ctrl: true, shift: false, alt: false }
}

fn type_text(a: &mut App, text: &str) {
    for c in text.chars() {
        a.handle_key(key(KeyCode::Char(c)), 0);
    }
}

fn usage(prompt: u64, completion: u64, total: u64) -> Usage {
    Usage {
        prompt_tokens: prompt,
        completion_tokens: completion,
        total_tokens: total,
        prompt_tokens_details: None,
    }
}

#[test]
fn streamed_text_accumulates_into_one_assistant_message() {
    let mut a = app();
    a.apply(AgentEvent::Text("Hel".into()), 0);
    a.apply(AgentEvent::Text("lo".into()), 0);

    assert_eq!(a.transcript.len(), 1, "chunks must not each become an entry");
    let TranscriptItem::Assistant { text, done } = &a.transcript[0] else { panic!() };
    assert_eq!(text, "Hello");
    assert!(!done, "still streaming");
}

#[test]
fn a_tool_call_closes_the_open_assistant_message() {
    let mut a = app();
    a.apply(AgentEvent::Text("Let me look.".into()), 0);
    a.apply(
        AgentEvent::ToolStarted {
            id: "t1".into(),
            name: "read_file".into(),
            summary: "Read(a.rs)".into(),
        },
        7,
    );

    let TranscriptItem::Assistant { done, .. } = &a.transcript[0] else { panic!() };
    assert!(done, "text after a tool call is a new message, not a continuation");
    assert!(matches!(
        a.transcript[1],
        TranscriptItem::Tool { state: ToolState::Running { started: 7 }, .. }
    ));
}

#[test]
fn a_finished_tool_updates_the_entry_it_started() {
    let mut a = app();
    a.apply(
        AgentEvent::ToolStarted {
            id: "t1".into(),
            name: "read_file".into(),
            summary: "Read(a.rs)".into(),
        },
        0,
    );
    a.apply(
        AgentEvent::ToolFinished {
            id: "t1".into(),
            name: "read_file".into(),
            outcome_summary: Some("142 lines".into()),
            display: ToolDisplay::default(),
            is_error: false,
            duration: Duration::from_millis(12),
        },
        0,
    );

    assert_eq!(a.transcript.len(), 1, "the finish updates in place");
    let TranscriptItem::Tool { state: ToolState::Finished { summary, .. }, .. } = &a.transcript[0]
    else {
        panic!("expected a finished tool");
    };
    assert_eq!(summary.as_deref(), Some("142 lines"));
}

#[test]
fn a_denial_before_the_tool_was_announced_still_appears() {
    let mut a = app();
    a.apply(
        AgentEvent::ToolDenied { id: "t9".into(), name: "bash".into(), reason: "blocked".into() },
        0,
    );
    assert!(matches!(
        &a.transcript[0],
        TranscriptItem::Tool { state: ToolState::Denied { .. }, .. }
    ));
}

#[test]
fn scrolling_up_pins_the_view_and_reaching_the_bottom_releases_it() {
    let mut a = app();
    a.content_height = 100;
    a.viewport_height = 10;
    a.scroll = 90;

    a.scroll_up(5);
    assert!(a.scroll_locked, "the view must stop chasing new output");

    a.scroll_down(u16::MAX);
    assert!(!a.scroll_locked, "returning to the bottom re-attaches");
}

#[test]
fn new_output_does_not_move_a_pinned_view() {
    let mut a = app();
    a.content_height = 100;
    a.viewport_height = 10;
    a.scroll_up(20);
    let pinned = a.scroll;

    a.apply(AgentEvent::Text("more output".into()), 0);
    assert_eq!(a.scroll, pinned, "reading scrollback must not be interrupted");
}

#[test]
fn mode_cycling_skips_bypass_permissions() {
    let mut a = app();
    a.mode = PermissionMode::Default;

    let mut seen = Vec::new();
    for _ in 0..6 {
        seen.push(a.cycle_mode());
    }
    assert!(
        !seen.contains(&PermissionMode::BypassPermissions),
        "one stray keystroke must not disable every safety check: {seen:?}"
    );
    assert!(seen.contains(&PermissionMode::Plan));
    assert!(seen.contains(&PermissionMode::AcceptEdits));
}

#[test]
fn a_turn_ending_marks_the_message_done_and_clears_busy() {
    let mut a = app();
    a.busy = true;
    a.apply(AgentEvent::Text("answer".into()), 0);
    a.apply(AgentEvent::TurnComplete { stop_reason: StopReason::Complete }, 0);

    assert!(!a.busy);
    let TranscriptItem::Assistant { done, .. } = &a.transcript[0] else { panic!() };
    assert!(done);
}

#[test]
fn hitting_the_tool_limit_explains_itself_rather_than_stopping_silently() {
    let mut a = app();
    a.apply(
        AgentEvent::TurnComplete { stop_reason: StopReason::ToolLimitReached { limit: 60 } },
        0,
    );

    let TranscriptItem::Notice { text, level } = a.transcript.last().unwrap() else {
        panic!("expected a notice")
    };
    assert_eq!(*level, NoticeLevel::Warning);
    assert!(text.contains("60 tool calls"), "got: {text}");
    assert!(text.contains("loop"), "the likely cause is named: {text}");
}

#[test]
fn usage_accumulates_across_round_trips() {
    let mut a = app();
    a.apply(AgentEvent::Usage(usage(100, 20, 120)), 0);
    a.apply(AgentEvent::Usage(usage(300, 40, 340)), 0);

    assert_eq!(a.usage.total_tokens, 460);
    assert_eq!(a.context_tokens, 340, "context tracks the latest prompt, not the sum");
}

#[test]
fn token_counts_format_compactly() {
    assert_eq!(format_tokens(999), "999");
    assert_eq!(format_tokens(12_400), "12.4k");
    assert_eq!(format_tokens(2_000_000), "2.0M");
}

#[test]
fn token_counts_round_as_doubles_do() {
    for n in [1000u64, 1049, 1050, 1051, 1149, 1150, 1250, 12_350, 99_950, 999_949, 999_950] {
        assert_eq!(format_tokens(n), format!("{:.1}k", n as f64 / 1000.0), "{n}");
    }
    for n in [1_000_000u64, 1_250_000, 1_350_000, 123_456_789, u64::MAX] {
        assert_eq!(format_tokens(n), format!("{:.1}M", n as f64 / 1_000_000.0), "{n}");
    }
}

#[test]
fn enter_submits_and_remembers() {
    let mut a = app();
    type_text(&mut a, "hi");
    let effect = a.handle_key(key(KeyCode::Enter), 0);
    assert!(matches!(&effect, Effect::Submit(line) if line == "hi"), "{effect:?}");
    assert!(a.textarea.is_empty());
    assert_eq!(a.textarea.history_len(), 1);
}

#[test]
fn a_second_interrupt_within_the_window_quits() {
    let mut a = app();
    a.handle_key(ctrl('c'), 1_000);
    assert!(!a.should_quit, "one stray keystroke must not end the session");
    a.handle_key(ctrl('c'), 1_000 + QUIT_WINDOW / 2);
    assert!(a.should_quit);
}

#[test]
fn escape_interrupts_a_turn() {
    let mut a = app();
    a.busy = true;
    assert!(matches!(a.handle_key(key(KeyCode::Esc), 0), Effect::Cancel));
}

#[test]
fn shift_tab_asks_for_the_next_mode() {
    let mut a = app();
    let effect = a.handle_key(key(KeyCode::BackTab), 0);
    assert!(matches!(effect, Effect::StoreMode(m) if m == a.mode), "{effect:?}");
    assert_ne!(a.mode, PermissionMode::Default);
}

#[test]
fn submitted_lines_become_turns_or_commands() {
    let mut a = app();
    assert!(matches!(a.submit("fix it"), Submitted::StartTurn(p) if p == "fix it"));
    assert!(matches!(a.submit("/compact"), Submitted::Compact));
    assert!(matches!(a.submit("/clear"), Submitted::Clear));
    assert!(matches!(a.submit("/context"), Submitted::Report(n) if n == "context"));
    assert!(matches!(a.submit("/mode plan"), Submitted::StoreMode(PermissionMode::Plan)));
    assert!(matches!(a.submit("/resume"), Submitted::Sessions));
    a.submit("/model");
    assert!(matches!(&a.overlay, Overlay::Picker { kind: PickerKind::Model, .. }));
    a.overlay = Overlay::Closed;
    a.submit("/nonsense");
    let TranscriptItem::Notice { text, .. } = a.transcript.last().unwrap() else { panic!() };
    assert!(text.contains("nonsense"), "got: {text}");
    a.submit("/quit");
    assert!(a.should_quit);
}

#[test]
fn custom_commands_are_prompts() {
    let mut a = app();
    a.custom = vec![SlashCommand {
        name: "review".into(),
        description: "reviews".into(),
        argument_hint: None,
        template: Some("Review $1.".into()),
    }];
    assert!(matches!(a.submit("/review a.rs"), Submitted::StartTurn(p) if p == "Review a.rs."));
}

#[test]
fn sessions_are_offered_by_label() {
    let mut a = app();
    a.pick_session(&vec![]);
    assert!(matches!(a.overlay, Overlay::Closed), "there is nothing to choose from");
    a.pick_session(&vec![SessionSummary {
        id: "0123456789".into(),
        path: "/s/0123456789.jsonl".into(),
        title: Some("retry work".into()),
        model: "grok-4".into(),
        started_at: "2026-01-01T00:00:00Z".into(),
        message_count: 3,
        modified: 0,
    }]);
    let Overlay::Picker { kind, entries, .. } = &a.overlay else { panic!() };
    assert_eq!(*kind, PickerKind::Session);
    assert_eq!(entries[0].label, "retry work");
    assert_eq!(entries[0].value, "0123456789");
}

#[test]
fn a_resumed_session_is_replayed() {
    let mut a = app();
    let messages =
        vec![Message::system("sys"), Message::user("hello"), Message::assistant("hi there")];
    replay_session(&mut a, "0123456789", &messages);
    assert!(a.transcript.iter().any(|i| matches!(i, TranscriptItem::User(t) if t == "hello")));
    assert!(a
        .transcript
        .iter()
        .any(|i| matches!(i, TranscriptItem::Assistant { text, done: true } if text == "hi there")));
    assert!(!a.transcript.iter().any(|i| matches!(i, TranscriptItem::User(t) if t == "sys")));
    assert_eq!(a.textarea.history_len(), 1);
}

fn agent() -> Agent {
    let config = load(
        "/repo",
        ConfigFile::default(),
        &Environment { api_key: None, model: None, base_url: None },
        &CliOverrides { model: None, base_url: None, permission_mode: None, max_tokens: None },
    );
    let session = Session::in_memory("session-two", "grok-4");
    Agent::new(config, session, ToolRegistry::with_builtins(), vec![])
}

#[test]
fn what_the_terminal_reports_reaches_the_view() {
    let mut a = app();
    a.content_height = 40;
    a.viewport_height = 10;
    a.scroll = 20;
    a.scroll_locked = true;
    a.handle_terminal_event(Incoming::WheelUp, 0);
    assert_eq!(a.scroll, 20 - WHEEL_LINES);
    a.handle_terminal_event(Incoming::WheelDown, 0);
    assert_eq!(a.scroll, 20);
    a.handle_terminal_event(Incoming::Resized, 0);
    assert!(!a.scroll_locked);

    let effect = a.handle_terminal_event(Incoming::Paste("two\nlines".into()), 0);
    assert!(matches!(effect, Effect::Nothing), "a paste does not submit");
    assert_eq!(a.textarea.text(), "two\nlines");
    let effect = a.handle_terminal_event(Incoming::Key(key(KeyCode::Enter)), 0);
    let Effect::Submit(line) = effect else { panic!("enter submits") };
    assert_eq!(line, "two\nlines");
}

#[test]
fn the_view_mirrors_the_agent() {
    let mut a = app();
    let mut g = agent();
    g.session.push(Message::user("eight ch"));
    g.tool_context.todos =
        vec![TodoItem { content: "one".into(), status: TodoStatus::Pending }];
    a.sync(&g, PermissionMode::Plan);
    assert_eq!(a.model, "grok-4");
    assert_eq!(a.mode, PermissionMode::Plan);
    assert_eq!(a.session_id, "session-two");
    assert_eq!(a.context_tokens, g.session.estimated_context_tokens());
    assert_eq!(a.todos, g.tool_context.todos);
}

#[test]
fn usage_that_no_counter_holds_is_not_taken() {
    let mut a = app();
    assert!(a.takes(&AgentEvent::Usage(usage(u64::MAX, 0, 5))));
    assert!(!a.takes(&AgentEvent::Usage(usage(u64::MAX, 1, 5))));
    a.apply(AgentEvent::Usage(usage(0, 0, u64::MAX)), 0);
    assert!(!a.takes(&AgentEvent::Usage(usage(0, 0, 1))));
    assert!(a.takes(&AgentEvent::Text("more".into())));
}

#[test]
fn what_is_wrong_from_the_start_is_announced() {
    let mut a = app();
    a.announce(&vec![], &None);
    assert!(a.transcript.is_empty());
    a.announce(&vec!["Bash(".into(), "(".into()], &Some("disk full".into()));
    let texts: Vec<&str> = a
        .transcript
        .iter()
        .map(|item| match item {
            TranscriptItem::Notice { text, level: NoticeLevel::Warning } => text.as_str(),
            _ => panic!("a warning was expected"),
        })
        .collect();
    assert_eq!(
        texts,
        ["Ignoring malformed permission rules: Bash(, (", "This session will not be saved: disk full"]
    );
}
