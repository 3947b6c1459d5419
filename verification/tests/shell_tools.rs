use grok_cli::api::types::ToolCall;
use grok_cli::json::Json;
use grok_cli::tools::shell::{
    join_streams, take_line, Bash, BashOutput, BashRequest, Ended, KillShell, ShellManager,
    DEFAULT_TIMEOUT_SECS, MAX_BACKGROUND_LINES, MAX_TIMEOUT_SECS,
};
use grok_cli::util::Duration;

fn json(text: &str) -> Json {
    ToolCall::new("c", "t", text).parsed_arguments().unwrap()
}

fn exited(code: i32, output: &str) -> Ended {
    Ended::Exited {
        code: Some(code),
        success: code == 0,
        output: output.to_string(),
        elapsed: Duration::from_millis(12),
    }
}

#[test]
fn a_successful_command_returns_its_stdout() {
    let out = Bash.run(&exited(0, "hello\n"));
    assert!(!out.is_error, "got: {}", out.content);
    assert_eq!(out.content.trim(), "hello");
    assert!(out.display.summary.unwrap().starts_with("exit 0"));
}

#[test]
fn a_failing_command_is_reported_as_an_error_with_its_status() {
    let out = Bash.run(&exited(3, ""));
    assert!(out.is_error, "a non-zero exit must not read as success");
    assert!(out.content.contains("exit status 3"), "got: {}", out.content);
}

#[test]
fn stderr_is_captured_alongside_stdout() {
    let joined = join_streams("out\n", "err\n");
    assert!(joined.contains("out"));
    assert!(joined.contains("err"), "stderr must not be dropped: {joined}");
    assert_eq!(join_streams("out\n", "  "), "out\n");
    assert_eq!(join_streams("", "err"), "err");
}

#[test]
fn a_timeout_kills_the_command_and_says_so() {
    let request = Bash.request(&json(r#"{"command": "sleep 5", "timeout": 1}"#)).unwrap();
    assert!(matches!(&request, BashRequest::Foreground(c, 1) if c == "sleep 5"));
    let out = Bash.run(&Ended::TimedOut(1, String::new()));
    assert!(out.is_error);
    assert!(out.content.contains("timed out after 1s"), "got: {}", out.content);
}

#[test]
fn cancellation_interrupts_a_running_command() {
    let out = Bash.run(&Ended::Interrupted);
    assert!(out.is_error);
    assert!(out.content.contains("interrupted"), "got: {}", out.content);
}

#[test]
fn an_empty_command_is_refused() {
    let out = Bash.request(&json(r#"{"command": "   "}"#)).unwrap_err();
    assert!(out.is_error);
}

#[test]
fn background_shells_are_pollable_and_killable() {
    let args = json(r#"{"command": "echo one; echo two", "run_in_background": true}"#);
    let Ok(BashRequest::Background(command)) = Bash.request(&args) else {
        panic!("a background command was asked for");
    };
    let mut shells = ShellManager::new();
    let id = shells.start(&command);
    let started = Bash.started(&command, &id);
    assert!(!started.is_error, "got: {}", started.content);
    assert!(started.content.contains("shell_1"));

    shells.record(&id, "one");
    shells.record(&id, "two");

    let poll = json(r#"{"id": "shell_1"}"#);
    let polled = BashOutput.run(&poll, &mut shells);
    assert!(polled.content.contains("one"), "got: {}", polled.content);
    assert!(polled.content.contains("two"));

    // A second poll returns only what is new, i.e. nothing.
    let again = BashOutput.run(&poll, &mut shells);
    assert!(!again.content.contains("one"), "output must not be replayed");

    let killed = KillShell.run(&poll, &mut shells);
    assert!(!killed.is_error);
    assert!(shells.ids().is_empty());
    assert!(KillShell.run(&poll, &mut shells).is_error, "it is gone");
}

#[test]
fn polling_an_unknown_shell_lists_the_ones_that_exist() {
    let out = BashOutput.run(&json(r#"{"id": "nope"}"#), &mut ShellManager::new());
    assert!(out.is_error);
    assert!(out.content.contains("no background shell"), "got: {}", out.content);
}

#[test]
fn timeouts_are_capped_even_when_the_model_asks_for_more() {
    let timeout = |args: &str| match Bash.request(&json(args)).unwrap() {
        BashRequest::Foreground(_, t) => t,
        BashRequest::Background(_) => panic!("not asked for"),
    };
    assert_eq!(timeout(r#"{"command": "x", "timeout": 99999}"#), MAX_TIMEOUT_SECS);
    assert_eq!(timeout(r#"{"command": "x", "timeout": 0}"#), 1);
    assert_eq!(timeout(r#"{"command": "x"}"#), DEFAULT_TIMEOUT_SECS);
}

#[test]
fn background_output_is_bounded_and_the_exit_is_reported() {
    let mut shells = ShellManager::new();
    let id = shells.start("yes");
    for i in 0..MAX_BACKGROUND_LINES + 3 {
        shells.record(&id, &format!("line {i}"));
    }
    shells.finish(&id, Some(9));
    let (lines, finished, code) = shells.drain(&id).unwrap();
    assert!(lines.len() <= MAX_BACKGROUND_LINES + 1);
    assert_eq!(lines.last().unwrap(), &format!("line {}", MAX_BACKGROUND_LINES + 2));
    assert!(finished);
    assert_eq!(code, Some(9));
    assert!(shells.drain("shell_77").is_none());
}

#[test]
fn lines_are_collected_until_there_is_too_much() {
    let mut buffer = String::new();
    assert!(take_line(&mut buffer, "one"));
    assert_eq!(buffer, "one\n");
    assert!(!take_line(&mut buffer, &"x".repeat(200_000)));
    assert!(Bash.run(&Ended::NotStarted("no sh".into())).content.contains("no sh"));
    assert!(Bash.run(&Ended::Failed("lost".into())).is_error);
}
