use grok_cli::config::HookConfig;
use grok_cli::hooks::{
    reply, time_limit, timeout_error, HookDecision, HookEvent, HookReply, HookRun, HookRunner,
};
use grok_cli::table::Table;

fn runner(event: &str, hooks: Vec<HookConfig>) -> HookRunner {
    let mut map = Table::new();
    map.insert(event.to_string(), hooks);
    HookRunner::new(map, "test-session", ".")
}

fn hook(command: &str, matcher: Option<&str>) -> HookConfig {
    HookConfig {
        matcher: matcher.map(str::to_string),
        command: command.to_string(),
        timeout_secs: 10,
    }
}

/// What hooks decide, given what each of them did.
fn decided(event: HookEvent, outcomes: Vec<Result<HookReply, String>>) -> HookDecision {
    let mut run = HookRun::new(event);
    for outcome in outcomes {
        if !run.take("hook", outcome) {
            break;
        }
    }
    run.finish()
}

fn said(stdout: &str) -> Result<HookReply, String> {
    Ok(reply(Some(0), stdout.as_bytes(), b"", true))
}

#[test]
fn no_configured_hooks_means_proceed() {
    let r = HookRunner::new(Table::new(), "s", ".");
    assert!(r.is_empty());
    assert!(r.matching(HookEvent::PreToolUse, Some("bash")).is_empty());
    assert!(matches!(
        decided(HookEvent::PreToolUse, vec![]),
        HookDecision::Proceed { context } if context.is_empty()
    ));
}

#[test]
fn a_hook_can_deny_a_tool_call_with_json() {
    let d = decided(
        HookEvent::PreToolUse,
        vec![said("{\"decision\":\"deny\",\"reason\":\"nope\"}\n")],
    );
    assert!(matches!(&d, HookDecision::Deny { reason } if reason == "nope"), "{d:?}");
}

#[test]
fn exit_code_two_denies_with_stderr_as_the_reason() {
    let d = decided(
        HookEvent::PreToolUse,
        vec![Ok(reply(Some(2), b"", b"policy violation\n", true))],
    );
    assert!(matches!(&d, HookDecision::Deny { reason } if reason == "policy violation"), "{d:?}");
}

#[test]
fn a_hook_can_pre_approve_a_call() {
    let d = decided(HookEvent::PreToolUse, vec![said("{\"decision\":\"allow\"}\n")]);
    assert!(matches!(d, HookDecision::Allow { .. }));
}

#[test]
fn matchers_scope_a_hook_to_specific_tools() {
    let r = runner("PreToolUse", vec![hook("x", Some("^bash$"))]);
    assert_eq!(r.matching(HookEvent::PreToolUse, Some("bash")).len(), 1);
    assert!(
        r.matching(HookEvent::PreToolUse, Some("read_file")).is_empty(),
        "a non-matching tool must be unaffected"
    );
    assert!(r.matching(HookEvent::PostToolUse, Some("bash")).is_empty());
}

#[test]
fn an_invalid_matcher_matches_nothing_rather_than_everything() {
    let r = runner("PreToolUse", vec![hook("x", Some("([unclosed"))]);
    assert!(
        r.matching(HookEvent::PreToolUse, Some("bash")).is_empty(),
        "a typo in a matcher must not block every tool"
    );
}

#[test]
fn plain_stdout_becomes_injected_context() {
    let HookDecision::Proceed { context } =
        decided(HookEvent::SessionStart, vec![said("branch: main\n")])
    else {
        panic!("expected Proceed");
    };
    assert_eq!(context, vec!["branch: main".to_string()]);
}

#[test]
fn post_tool_use_hooks_cannot_block() {
    let d = decided(
        HookEvent::PostToolUse,
        vec![said("{\"decision\":\"deny\",\"reason\":\"too late\"}")],
    );
    assert!(
        matches!(d, HookDecision::Proceed { .. }),
        "the side effect already happened; a deny here is meaningless"
    );
}

#[test]
fn a_crashing_hook_does_not_become_an_approval() {
    let d = decided(HookEvent::PreToolUse, vec![Ok(reply(Some(1), b"", b"", true))]);
    assert!(
        matches!(d, HookDecision::Proceed { .. }),
        "a failed hook falls through to normal permissions, never to Allow"
    );
    let d = decided(
        HookEvent::PreToolUse,
        vec![Ok(reply(Some(1), b"{\"decision\":\"allow\"}", b"", true))],
    );
    assert!(!matches!(d, HookDecision::Allow { .. }), "not even where it said so: {d:?}");
}

#[test]
fn a_hanging_hook_times_out_instead_of_wedging_the_session() {
    let mut h = hook("sleep 30", None);
    h.timeout_secs = 1;
    assert_eq!(time_limit(&h), 1);
    let d = decided(HookEvent::PreToolUse, vec![Err(timeout_error(&h))]);
    let HookDecision::Proceed { context } = d else { panic!("expected Proceed") };
    assert!(context.iter().any(|c| c.contains("failed")), "the failure is surfaced: {context:?}");
}

#[test]
fn the_first_deny_wins_over_a_later_allow() {
    let d = decided(
        HookEvent::PreToolUse,
        vec![
            said("{\"decision\":\"deny\",\"reason\":\"first\"}"),
            said("{\"decision\":\"allow\"}"),
        ],
    );
    assert!(matches!(&d, HookDecision::Deny { reason } if reason == "first"), "{d:?}");
}

#[test]
fn events_have_their_names() {
    assert_eq!(HookEvent::PreToolUse.as_str(), "PreToolUse");
    assert!(HookEvent::PreToolUse.can_block());
    assert!(!HookEvent::PostToolUse.can_block());
}

#[test]
fn a_reply_that_repeats_a_member_is_plain_output() {
    let out = br#"{"decision":"deny","decision":"allow"}"#;
    let r = reply(Some(0), out, b"", false);
    assert_eq!(r.decision, None);
    assert_eq!(r.context.as_deref(), Some(r#"{"decision":"deny","decision":"allow"}"#));
}
