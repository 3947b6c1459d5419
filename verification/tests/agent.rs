use grok_cli::agent::calls::{
    answered_by_user, check, prepare, primary_argument, settled, summarize, Gate,
    PermissionResponse, INTERRUPTED,
};
use grok_cli::agent::flow::{start, Action, CallFlow, Stage, Step};
use grok_cli::agent::prompt::Surroundings;
use grok_cli::agent::subagent::SubagentDefinition;
use grok_cli::agent::task::{Authorization, TaskNext, TaskTool, SUBAGENT_TOOL_LIMIT};
use grok_cli::agent::turn::{TurnAction, TurnFlow, TurnStage};
use grok_cli::agent::{
    compact, compaction_request, compaction_warning, denial_event, finished_event,
    permission_request, preview_for, started_event, Agent, AgentEvent, Next, StopReason, Turn,
    KEEP_TAIL,
};
use grok_cli::api::types::{Completion, Message, Role, ToolCall, Usage};
use grok_cli::config::{
    load, CliOverrides, Config, ConfigFile, Environment, HookConfig, PermissionMode,
    PermissionRules,
};
use grok_cli::hooks::{HookDecision, HookEvent};
use grok_cli::json::Json;
use grok_cli::permissions::{Decision, PermissionEngine};
use grok_cli::session::Session;
use grok_cli::tools::{ToolKind, ToolOutcome, ToolRegistry};
use grok_cli::util::Duration;

fn json(text: &str) -> Json {
    ToolCall::new("c", "t", text).parsed_arguments().unwrap()
}

fn test_config(deny: &[&str], mode: PermissionMode) -> Config {
    let file = ConfigFile {
        permissions: Some(PermissionRules {
            allow: vec![],
            deny: deny.iter().map(|d| d.to_string()).collect(),
            ask: vec![],
        }),
        ..ConfigFile::default()
    };
    load(
        "/repo",
        file,
        &Environment { api_key: Some("test-key".into()), model: None, base_url: None },
        &CliOverrides {
            model: None,
            base_url: None,
            permission_mode: Some(mode),
            max_tokens: None,
        },
    )
}

fn agent_with(deny: &[&str], mode: PermissionMode) -> Agent {
    let config = test_config(deny, mode);
    let session = Session::in_memory("test", &config.model);
    Agent::new(config, session, ToolRegistry::with_builtins(), vec![])
}

fn test_agent() -> Agent {
    agent_with(&[], PermissionMode::Default)
}

fn surroundings() -> Surroundings {
    Surroundings {
        platform: "linux".into(),
        today: "2026-01-01".into(),
        is_git_repo: false,
        memory: vec![],
    }
}

fn no_hooks() -> HookDecision {
    HookDecision::Proceed { context: vec![] }
}

/// What a call is answered with, where it does not run: the text for the model.
fn refused(agent: &mut Agent, call: &ToolCall, answer: Option<PermissionResponse>) -> Option<String> {
    let mode = agent.permissions.mode();
    let p = match prepare(&agent.tools, mode, call) {
        Ok(p) => p,
        Err(f) => return Some(f.content),
    };
    match check(&agent.permissions, mode, &p, &no_hooks()) {
        Gate::Run => None,
        Gate::Refused(f) => Some(f.content),
        Gate::Ask => match answered_by_user(&mut agent.permissions, &p, answer) {
            Gate::Refused(f) => Some(f.content),
            Gate::Run => None,
            Gate::Ask => panic!("an answer is an answer"),
        },
    }
}

/// Whether the user would be asked about a call.
fn prompts(agent: &Agent, call: &ToolCall) -> bool {
    let mode = agent.permissions.mode();
    let p = prepare(&agent.tools, mode, call).unwrap();
    matches!(check(&agent.permissions, mode, &p, &no_hooks()), Gate::Ask)
}

fn with_calls(calls: Vec<ToolCall>) -> Completion {
    let mut message = Message::assistant("");
    message.tool_calls = Some(calls);
    Completion { message, finish_reason: None, usage: Usage::default() }
}

fn plain(text: &str) -> Completion {
    Completion {
        message: Message::assistant(text),
        finish_reason: Some("stop".into()),
        usage: Usage::default(),
    }
}

#[test]
fn the_primary_argument_is_the_thing_rules_are_written_against() {
    assert_eq!(primary_argument(&json(r#"{"command": "ls -la"}"#)), "ls -la");
    assert_eq!(primary_argument(&json(r#"{"path": "src/a.rs"}"#)), "src/a.rs");
    assert_eq!(primary_argument(&json(r#"{"url": "https://x"}"#)), "https://x");
    assert_eq!(primary_argument(&json(r#"{"unrelated": 1}"#)), "");
}

#[test]
fn plan_mode_hides_mutating_tools_instead_of_advertising_and_refusing_them() {
    let agent = test_agent();
    assert!(agent.visible_tools(agent.permissions.mode()).get("bash").is_some());

    agent.permissions.set_mode(PermissionMode::Plan);
    let visible = agent.visible_tools(agent.permissions.mode());
    assert!(visible.get("bash").is_none(), "the model should not see a tool it cannot use");
    assert!(visible.get("write_file").is_none());
    assert!(visible.get("read_file").is_some());
}

#[test]
fn the_system_prompt_is_replaced_not_duplicated_on_refresh() {
    let mut agent = test_agent();
    agent.refresh_system_prompt(PermissionMode::Default, &vec![], &surroundings());
    agent.refresh_system_prompt(PermissionMode::Default, &vec![], &surroundings());

    let system_count = agent.session.messages.iter().filter(|m| m.is_role(Role::System)).count();
    assert_eq!(system_count, 1, "refreshing must not stack system prompts");
    assert!(agent.session.messages[0].is_role(Role::System), "and it stays first");
}

#[test]
fn an_unknown_tool_is_answered_with_the_list_of_real_ones() {
    let agent = test_agent();
    let call = ToolCall::new("c1", "does_not_exist", "{}");
    let f = prepare(&agent.tools, PermissionMode::Default, &call).unwrap_err();

    assert!(f.content.contains("unknown tool"), "got: {}", f.content);
    assert!(
        f.content.contains("read_file"),
        "the model needs to know what it can use: {}",
        f.content
    );
    assert!(matches!(denial_event(&f), AgentEvent::ToolDenied { .. }));
}

#[test]
fn malformed_tool_arguments_are_answered_rather_than_crashing_the_turn() {
    let agent = test_agent();
    let call = ToolCall::new("c1", "read_file", "{not json");
    let f = prepare(&agent.tools, PermissionMode::Default, &call).unwrap_err();

    assert!(f.content.contains("could not parse arguments"), "got: {}", f.content);
    assert!(
        f.content.contains("{not json"),
        "echoing the input helps the model fix it: {}",
        f.content
    );
}

#[test]
fn a_tool_needing_approval_is_refused_when_no_driver_can_answer() {
    // Headless with no --yes: the safe default is no, never yes.
    let mut agent = test_agent();
    let call = ToolCall::new("c1", "bash", r#"{"command":"echo hi"}"#);
    let result = refused(&mut agent, &call, None).expect("nobody could be asked");
    assert!(result.contains("refused"), "got: {result}");
}

#[test]
fn an_approved_tool_runs() {
    // read_file is harmless and needs no approval.
    let mut agent = test_agent();
    let call = ToolCall::new("c1", "read_file", r#"{"path":"a.txt"}"#);
    assert_eq!(refused(&mut agent, &call, None), None);
    let out = settled("read_file", Ok(ToolOutcome::ok("hello")));
    assert_eq!((out.content.as_str(), out.is_error), ("hello", false));
    assert!(settled("read_file", Err("lost".into())).is_error);
}

#[test]
fn a_deny_rule_refuses_the_call_and_tells_the_model_why() {
    let mut agent = agent_with(&["Bash(*)"], PermissionMode::BypassPermissions);
    let call = ToolCall::new("c1", "bash", r#"{"command":"echo hi"}"#);
    let result = refused(&mut agent, &call, Some(PermissionResponse::Always)).unwrap();

    assert!(result.contains("refused"), "got: {result}");
    assert!(result.contains("deny rule"), "the reason names the cause: {result}");
}

#[test]
fn approving_always_stops_the_next_identical_call_from_prompting() {
    let mut agent = test_agent();
    // Both commands share their first two words, which is the granularity a
    // bash grant is keyed at, so the second must not re-prompt.
    let call = ToolCall::new("c1", "bash", r#"{"command":"echo alpha one"}"#);
    assert!(prompts(&agent, &call));
    assert_eq!(refused(&mut agent, &call, Some(PermissionResponse::Always)), None);

    let call2 = ToolCall::new("c2", "bash", r#"{"command":"echo alpha two"}"#);
    assert!(
        !prompts(&agent, &call2),
        "the session grant should have suppressed the second prompt"
    );
}

#[test]
fn a_grant_for_one_command_does_not_cover_an_unrelated_one() {
    let mut agent = test_agent();
    let call = ToolCall::new("c1", "bash", r#"{"command":"echo hello"}"#);
    assert_eq!(refused(&mut agent, &call, Some(PermissionResponse::Always)), None);
    assert!(
        prompts(&agent, &ToolCall::new("c2", "bash", r#"{"command":"pwd"}"#)),
        "approving `echo` must never silently approve a different command"
    );
}

#[test]
fn approving_once_is_not_remembered() {
    let mut agent = test_agent();
    let call = ToolCall::new("c1", "bash", r#"{"command":"echo hello"}"#);
    assert_eq!(refused(&mut agent, &call, Some(PermissionResponse::Once)), None);
    assert!(prompts(&agent, &call));
}

#[test]
fn rejecting_tells_the_model_to_ask_rather_than_retry() {
    let mut agent = test_agent();
    let call = ToolCall::new("c1", "bash", r#"{"command":"rm -rf /"}"#);
    let result = refused(&mut agent, &call, Some(PermissionResponse::Reject)).unwrap();

    assert!(result.contains("declined"), "got: {result}");
    assert!(result.contains("Ask what they would prefer"), "got: {result}");
}

#[test]
fn a_hook_can_veto_even_where_permissions_are_bypassed() {
    let agent = agent_with(&[], PermissionMode::BypassPermissions);
    let call = ToolCall::new("b1", "bash", r#"{"command":"echo hi"}"#);
    let p = prepare(&agent.tools, PermissionMode::BypassPermissions, &call).unwrap();
    let veto = HookDecision::Deny { reason: "shell disabled by policy".into() };
    let Gate::Refused(f) = check(&agent.permissions, PermissionMode::BypassPermissions, &p, &veto)
    else {
        panic!("the hook denied it");
    };
    assert!(f.content.contains("shell disabled by policy"), "got: {}", f.content);
}

#[test]
fn a_hooks_approval_does_not_beat_a_deny_rule() {
    let agent = agent_with(&["Bash(*)"], PermissionMode::Default);
    let call = ToolCall::new("b1", "bash", r#"{"command":"echo hi"}"#);
    let p = prepare(&agent.tools, PermissionMode::Default, &call).unwrap();
    let approval = HookDecision::Allow { reason: "fine".into() };
    assert!(matches!(
        check(&agent.permissions, PermissionMode::Default, &p, &approval),
        Gate::Refused(_)
    ));
    let free = agent_with(&[], PermissionMode::Default);
    assert!(matches!(
        check(&free.permissions, PermissionMode::Default, &p, &approval),
        Gate::Run
    ));
}

#[test]
fn an_edit_prompt_carries_a_diff_so_the_user_approves_the_change() {
    let preview = preview_for(
        "edit_file",
        &json(r#"{"path": "a.txt", "old_string": "two", "new_string": "TWO"}"#),
        "one\ntwo\n",
    )
    .expect("an edit must produce a preview");

    assert!(preview.contains("-two"), "got: {preview}");
    assert!(preview.contains("+TWO"), "got: {preview}");
}

#[test]
fn a_bash_prompt_has_no_diff_preview() {
    assert!(preview_for("bash", &json(r#"{"command": "ls"}"#), "").is_none());
    let agent = test_agent();
    let call = ToolCall::new("c", "bash", r#"{"command": "ls"}"#);
    let p = prepare(&agent.tools, PermissionMode::Default, &call).unwrap();
    let request = permission_request(&p, None);
    assert_eq!((request.tool_name.as_str(), request.argument.as_str()), ("bash", "ls"));
    assert_eq!(request.summary, summarize("bash", &json(r#"{"command": "ls"}"#)));
}

#[test]
fn every_tool_call_is_answered_even_when_the_turn_is_interrupted() {
    let mut agent = test_agent();
    assert!(agent.begin_turn("go", &no_hooks()).is_none());
    let mut flow = TurnFlow::new(&agent);
    assert!(matches!(flow.next_request(&agent, false), TurnAction::Request));
    let calls = vec![ToolCall::new("a", "bash", "{}"), ToolCall::new("b", "bash", "{}")];
    let action = flow.completed(&mut agent, &with_calls(calls), true);
    assert!(matches!(action, TurnAction::PassOver));
    assert!(matches!(flow.passed_over(&mut agent), TurnAction::PassOver));
    let action = flow.passed_over(&mut agent);
    assert!(matches!(action, TurnAction::Stop(StopReason::Interrupted)));
    assert_eq!(answers(&agent), [("a", INTERRUPTED), ("b", INTERRUPTED)]);
}

/// The answers in a conversation, each with the call that it is for.
fn answers(agent: &Agent) -> Vec<(&str, &str)> {
    agent
        .session
        .messages
        .iter()
        .filter(|m| m.is_role(Role::Tool))
        .map(|m| (m.tool_call_id.as_deref().unwrap(), m.content.as_deref().unwrap()))
        .collect()
}

#[test]
fn a_turn_goes_on_until_the_model_asks_for_nothing() {
    let mut agent = test_agent();
    agent.begin_turn("go", &no_hooks());
    let mut flow = TurnFlow::new(&agent);
    assert!(matches!(flow.next_request(&agent, false), TurnAction::Request));
    let calls = vec![ToolCall::new("a", "bash", "{}"), ToolCall::new("b", "glob", "{}")];
    let action = flow.completed(&mut agent, &with_calls(calls), false);
    assert!(matches!(action, TurnAction::Execute(c) if c.id == "a"));
    let action = flow.executed(&mut agent, "first");
    assert!(matches!(action, TurnAction::Execute(c) if c.function.name == "glob"));
    assert!(matches!(flow.executed(&mut agent, "second"), TurnAction::GoOn));
    assert_eq!(answers(&agent), [("a", "first"), ("b", "second")]);

    assert!(matches!(flow.next_request(&agent, false), TurnAction::Request));
    let action = flow.completed(&mut agent, &plain("done"), false);
    assert!(matches!(action, TurnAction::Stop(StopReason::Complete)));
    assert_eq!(flow.turn.iterations, 2);
    assert_eq!(agent.session.messages.len(), 5);
}

#[test]
fn a_turn_ends_where_a_request_fails() {
    let mut agent = test_agent();
    agent.begin_turn("go", &no_hooks());
    let mut flow = TurnFlow::new(&agent);
    flow.next_request(&agent, false);
    let action = flow.failed("no network", false);
    assert!(matches!(action, TurnAction::Stop(StopReason::Error(e)) if e == "no network"));
    assert!(matches!(flow.stage, TurnStage::Ended));

    let mut flow = TurnFlow::new(&agent);
    let action = flow.next_request(&agent, true);
    assert!(matches!(action, TurnAction::Stop(StopReason::Interrupted)));

    agent.session.usage.prompt_tokens = u64::MAX;
    let mut flow = TurnFlow::new(&agent);
    flow.next_request(&agent, false);
    let mut completion = plain("hi");
    completion.usage.prompt_tokens = 1;
    let action = flow.completed(&mut agent, &completion, false);
    assert!(matches!(action, TurnAction::Stop(StopReason::Error(_))));
    assert_eq!(agent.session.messages.len(), 1);
}

/// An agent whose conversation has reached its limit: calls and answers, long
/// enough that older messages can go.
fn full_agent() -> Agent {
    let mut agent = test_agent();
    agent.config.model = "grok-3".into();
    for i in 0..KEEP_TAIL {
        let id = format!("c{i}");
        agent.session.push(Message::user(&"word ".repeat(40_000)));
        let call = ToolCall::new(&id, "bash", "{}");
        agent.session.push(with_calls(vec![call]).message);
        agent.session.push(Message::tool_result(&id, "ok"));
    }
    agent
}

#[test]
fn a_full_conversation_is_summarized_before_the_next_request() {
    let mut agent = full_agent();
    assert!(agent.needs_compaction());
    let mut flow = TurnFlow::new(&agent);
    let before = agent.session.messages.len();
    assert!(matches!(flow.next_request(&agent, false), TurnAction::Summarize(_)));
    let event = flow.summarized(&mut agent, Ok("what came before".into()));
    let Some(AgentEvent::Compacted { dropped, summary }) = event else { panic!() };
    assert_eq!(summary, "what came before");
    assert!(dropped > 0 && agent.session.messages.len() < before);
    assert!(matches!(flow.stage, TurnStage::Waiting));

    // Every call that is left still has its answer, and no answer is without one.
    let called: Vec<&str> = agent
        .session
        .messages
        .iter()
        .flat_map(|m| m.tool_calls.iter().flatten())
        .map(|c| c.id.as_str())
        .collect();
    let answered: Vec<&str> = answers(&agent).into_iter().map(|(id, _)| id).collect();
    assert_eq!(called, answered);
}

#[test]
fn a_summary_that_fails_is_reported_and_the_turn_goes_on() {
    let mut agent = full_agent();
    let before = agent.session.messages.len();
    for (outcome, reason) in [
        (Err("no network".to_string()), "compaction failed: no network"),
        (Ok(" ".to_string()), "compaction failed: the model returned an empty summary"),
    ] {
        let mut flow = TurnFlow::new(&agent);
        assert!(matches!(flow.next_request(&agent, false), TurnAction::Summarize(_)));
        let event = flow.summarized(&mut agent, outcome);
        assert!(matches!(event, Some(AgentEvent::Warning(w)) if w == reason));
        assert!(matches!(flow.stage, TurnStage::Waiting));
        assert_eq!(agent.session.messages.len(), before);
    }
}

#[test]
fn an_agent_starts_from_its_configuration() {
    let mut config = test_config(&["Bash(rm:*)"], PermissionMode::Plan);
    config.model = "grok-4".into();
    config.max_tool_iterations = 7;
    let guard = HookConfig { matcher: None, command: "guard".into(), timeout_secs: 10 };
    config.hooks.insert("PreToolUse".into(), vec![guard]);
    let session = Session::in_memory("test", "grok-4");
    let agent = Agent::new(config, session, ToolRegistry::with_builtins(), vec![]);
    assert_eq!(agent.config.workspace, "/repo");
    assert_eq!(agent.config.max_tool_iterations, 7);
    assert_eq!(agent.config.permissions.deny, ["Bash(rm:*)"]);
    assert_eq!(agent.config.hooks.get("PreToolUse").unwrap()[0].command, "guard");
    assert_eq!(agent.hooks.matching(HookEvent::PreToolUse, Some("bash")).len(), 1);
    assert_eq!(agent.client.max_retries, 3);
    assert!(agent.permissions.invalid.is_empty());
    assert!(agent.tool_context.todos.is_empty());
    assert!(!agent.needs_compaction());
}

#[test]
fn what_the_configuration_denies_stays_denied_inside_a_subagent() {
    let agent = agent_with(&["Bash(rm:*)"], PermissionMode::BypassPermissions);
    let task = TaskTool::of(&agent, false);
    let bash = |command: &str| {
        let args = format!(r#"{{"command": "{command}"}}"#);
        let call = ToolCall::new("c", "bash", &args);
        prepare(&agent.tools, PermissionMode::BypassPermissions, &call).unwrap()
    };
    for mode in [PermissionMode::Default, PermissionMode::BypassPermissions] {
        let verdict = task.authorize(mode, "worker", &bash("rm -rf x"));
        assert!(matches!(verdict, Authorization::Refused(_)));
    }
    let verdict = task.authorize(PermissionMode::BypassPermissions, "worker", &bash("ls"));
    assert!(matches!(verdict, Authorization::Allowed));
}

#[test]
fn the_tool_iteration_limit_stops_a_loop() {
    let mut turn = Turn::new(20);
    for _ in 0..20 {
        assert!(turn.before_request(false).is_none());
    }
    assert_eq!(
        turn.before_request(false),
        Some(StopReason::ToolLimitReached { limit: 20 }),
        "a runaway loop must terminate and say why"
    );
}

#[test]
fn interrupting_a_turn_stops_it_and_reports_interruption() {
    let mut turn = Turn::new(20);
    assert_eq!(turn.before_request(true), Some(StopReason::Interrupted));
    assert_eq!(turn.failed("connection reset", true), StopReason::Interrupted);
    assert!(matches!(turn.failed("boom", false), StopReason::Error(e) if e.contains("boom")));
}

#[test]
fn a_plain_answer_ends_the_turn() {
    let mut agent = test_agent();
    agent.begin_turn("hello", &no_hooks());
    assert!(matches!(
        agent.take_completion(&plain("hi"), false),
        Next::Stop(StopReason::Complete)
    ));
    assert_eq!(agent.session.messages.len(), 2);
    let denied = HookDecision::Deny { reason: "closed".into() };
    assert!(matches!(agent.begin_turn("more", &denied), Some(StopReason::Error(e)) if e == "closed"));
    assert_eq!(agent.session.messages.len(), 2);
}

#[test]
fn compaction_keeps_the_system_prompt_and_the_tail() {
    let mut s = Session::in_memory("x", "grok-4");
    s.push(Message::system("sys"));
    for i in 0..KEEP_TAIL + 4 {
        s.push(Message::user(&format!("message {i}")));
    }
    assert!(compaction_request(&s.messages).is_some());
    let dropped = compact(&mut s, "what came before").unwrap().expect("there is enough to drop");
    assert!(dropped > 0);
    assert!(s.messages[0].is_role(Role::System));
    assert!(s.messages.iter().any(|m| m.content.as_deref().unwrap().contains("what came before")));
    let last = s.messages.last().unwrap().content.as_deref().unwrap();
    assert_eq!(last, format!("message {}", KEEP_TAIL + 3));

    let mut short = Session::in_memory("x", "grok-4");
    short.push(Message::user("hi"));
    assert!(compaction_request(&short.messages).is_none());
}

fn task_tool(config: &Config) -> TaskTool {
    TaskTool::new(
        vec![SubagentDefinition {
            name: "worker".into(),
            description: "does work".into(),
            prompt: "You do work.".into(),
            tools: Some(vec!["bash".into()]),
            model: None,
        }],
        ToolRegistry::with_builtins(),
        PermissionEngine::from_config(config),
        false,
    )
}

#[test]
fn a_subagent_cannot_run_a_command_the_parent_denies() {
    // bypassPermissions is the strongest case: the deny rule must still win.
    let config = test_config(&["Bash(*)"], PermissionMode::BypassPermissions);
    let tool = task_tool(&config);
    let run = tool.start(&config, &json(r#"{"agent": "worker", "prompt": "go"}"#)).unwrap();
    let call = ToolCall::new("c", "bash", r#"{"command": "touch pwned.txt"}"#);
    let p = run.prepare(&call).unwrap();
    assert!(matches!(
        tool.authorize(PermissionMode::BypassPermissions, "worker", &p),
        Authorization::Refused(_)
    ));

    // And the tool refuses an unknown agent rather than falling through.
    let out = tool
        .start(&config, &json(r#"{"agent": "nonexistent", "prompt": "do something"}"#))
        .unwrap_err();
    assert!(out.is_error);
}

#[test]
fn a_subagent_inherits_plan_mode_from_its_parent() {
    let parent = PermissionEngine::new(&PermissionRules::default(), PermissionMode::Default);
    let child = PermissionEngine::sharing_mode(&PermissionRules::default(), parent.shared_mode());

    // Switching the parent to plan mode must govern delegated work too.
    parent.set_mode(PermissionMode::Plan);
    let decision = child.evaluate("write_file", ToolKind::Edit, "a.txt");
    assert!(matches!(decision, Decision::Deny { .. }), "plan mode must reach delegated calls");
}

#[test]
fn a_subagent_answers_every_call_behind_the_message_that_made_it() {
    let config = test_config(&[], PermissionMode::Default);
    let mut run = task_tool(&config)
        .start(&config, &json(r#"{"agent": "worker", "prompt": "go"}"#))
        .unwrap();
    let calls = vec![ToolCall::new("a", "bash", "{}"), ToolCall::new("b", "glob", "{}")];
    let TaskNext::Answer(mut open) = run.take_completion(&with_calls(calls)) else { panic!() };
    while open.current().is_some() {
        run.answer_call(&mut open, "refused");
    }
    let ids: Vec<Option<&str>> = run.messages.iter().map(|m| m.tool_call_id.as_deref()).collect();
    assert_eq!(ids, [None, None, None, Some("a"), Some("b")]);
}

#[test]
fn a_subagent_has_no_more_than_it_was_given() {
    let config = test_config(&[], PermissionMode::Default);
    let mut run = task_tool(&config)
        .start(&config, &json(r#"{"agent": "worker", "prompt": "go"}"#))
        .unwrap();
    assert_eq!(run.tools.names(), ["bash"]);
    assert!(run.prepare(&ToolCall::new("c", "read_file", "{}")).is_err());
    for _ in 0..SUBAGENT_TOOL_LIMIT {
        assert!(run.before_request(false).is_none());
    }
    assert!(run.before_request(false).unwrap().is_error, "it stops at its limit");
    let TaskNext::Finished(_, out) = run.take_completion(&plain("all done")) else {
        panic!("it is finished");
    };
    assert!(out.content.contains("all done"));
}

#[test]
fn a_call_is_announced_before_and_after_it_runs() {
    let agent = test_agent();
    let call = ToolCall::new("c1", "read_file", r#"{"path":"a.rs"}"#);
    let prepared = prepare(&agent.tools, PermissionMode::Default, &call).unwrap();
    let AgentEvent::ToolStarted { id, name, summary } = started_event(&prepared) else { panic!() };
    assert_eq!((id.as_str(), name.as_str()), ("c1", "read_file"));
    assert_eq!(summary, prepared.summary);

    let outcome = ToolOutcome::ok("text").with_summary("1 line");
    let event = finished_event(&prepared, outcome.display, false, Duration::from_millis(1500));
    let AgentEvent::ToolFinished { id, outcome_summary, is_error, duration, .. } = event else {
        panic!()
    };
    assert_eq!(id, "c1");
    assert_eq!(outcome_summary.as_deref(), Some("1 line"));
    assert!(!is_error);
    assert_eq!((duration.secs, duration.nanos), (1, 500_000_000));

    let AgentEvent::Warning(text) = compaction_warning("no network") else { panic!() };
    assert_eq!(text, "compaction failed: no network");
}

#[test]
fn delegation_starts_from_what_the_agent_has() {
    let helper = SubagentDefinition {
        name: "helper".into(),
        description: "helps".into(),
        prompt: "You help.".into(),
        tools: None,
        model: None,
    };
    let config = test_config(&["Bash(rm:*)"], PermissionMode::Default);
    let session = Session::in_memory("test", &config.model);
    let agent = Agent::new(config, session, ToolRegistry::with_builtins(), vec![helper]);
    let task = TaskTool::of(&agent, false);
    assert_eq!(task.definitions.len(), 1);
    assert_eq!(task.definitions[0].name, "helper");
    assert_eq!(task.parent_tools.len(), agent.tools.len());
    assert_eq!(task.permissions.deny.len(), 1);
    assert!(!task.can_ask);
}

/// A call that its hooks are about to be asked about.
fn under_way(agent: &Agent, call: &ToolCall) -> CallFlow {
    let prepared = prepare(&agent.tools, agent.permissions.mode(), call);
    let (flow, step) = start(agent, prepared);
    assert!(matches!(step.action, Action::RunHooks(HookEvent::PreToolUse, _)));
    assert!(step.events.is_empty());
    flow.unwrap()
}

fn names(step: &Step) -> Vec<&'static str> {
    step.events
        .iter()
        .map(|e| match e {
            AgentEvent::ToolDenied { .. } => "denied",
            AgentEvent::ToolStarted { .. } => "started",
            AgentEvent::ToolFinished { .. } => "finished",
            AgentEvent::Warning(_) => "warning",
            _ => "other",
        })
        .collect()
}

#[test]
fn a_call_that_is_allowed_runs_and_is_answered_once() {
    let agent = test_agent();
    let call = ToolCall::new("c1", "read_file", r#"{"path":"a.rs"}"#);
    let mut flow = under_way(&agent, &call);

    let hook = HookDecision::Proceed { context: vec!["[hook `x` failed: y]".into()] };
    let step = flow.hooks_spoke(&agent, PermissionMode::Default, &hook);
    assert_eq!(names(&step), ["warning", "started"]);
    assert!(matches!(step.action, Action::RunTool));

    let step = flow.tool_ended(&agent, Ok(ToolOutcome::ok("text")), Duration::from_secs(1));
    assert_eq!(names(&step), ["finished"]);
    let Action::RunHooks(HookEvent::PostToolUse, payload) = step.action else { panic!() };
    assert_eq!(payload.tool_output.as_deref(), Some("text"));

    let hook = HookDecision::Proceed { context: vec!["formatted".into()] };
    let step = flow.hooks_spoke(&agent, PermissionMode::Default, &hook);
    assert!(step.events.is_empty());
    let Action::Answer(content) = step.action else { panic!() };
    assert_eq!(content, "text\n\n<hook-context>\nformatted\n</hook-context>");
    assert!(matches!(flow.stage, Stage::Answered));
}

#[test]
fn a_call_that_is_refused_is_answered_without_running() {
    let agent = agent_with(&["Bash(rm:*)"], PermissionMode::Default);
    let call = ToolCall::new("c1", "bash", r#"{"command":"rm -rf /"}"#);
    // Not even a hook's approval gets past a deny rule.
    for hook in [no_hooks(), HookDecision::Allow { reason: "fine".into() }] {
        let mut flow = under_way(&agent, &call);
        let step = flow.hooks_spoke(&agent, PermissionMode::Default, &hook);
        assert_eq!(names(&step), ["denied"]);
        let Action::Answer(content) = step.action else { panic!("it must not run") };
        assert!(content.starts_with("Tool call refused: "), "got {content}");
        assert!(matches!(flow.stage, Stage::Answered));
    }

    let (flow, step) = start(
        &agent,
        prepare(&agent.tools, PermissionMode::Default, &ToolCall::new("c2", "nope", "{}")),
    );
    assert!(flow.is_none());
    assert_eq!(names(&step), ["denied"]);
    let Action::Answer(content) = step.action else { panic!() };
    assert!(content.contains("unknown tool `nope`"));
}

#[test]
fn the_user_decides_where_the_rules_ask() {
    let call = ToolCall::new("c1", "bash", r#"{"command":"cargo test"}"#);
    for (answer, runs) in [
        (Some(PermissionResponse::Once), true),
        (Some(PermissionResponse::Always), true),
        (Some(PermissionResponse::Reject), false),
        (None, false),
    ] {
        let mut agent = test_agent();
        let mut flow = under_way(&agent, &call);
        let step = flow.hooks_spoke(&agent, PermissionMode::Default, &no_hooks());
        assert!(matches!(step.action, Action::AskUser));
        let step = flow.user_answered(&mut agent.permissions, answer);
        if runs {
            assert_eq!(names(&step), ["started"]);
            assert!(matches!(step.action, Action::RunTool));
            let failed = Err("no shell".to_string());
            flow.tool_ended(&agent, failed, Duration::from_secs(0));
            let Stage::After(content) = &flow.stage else { panic!() };
            assert_eq!(content, "bash failed: no shell");
        } else {
            assert_eq!(names(&step), ["denied"]);
            assert!(matches!(step.action, Action::Answer(_)));
        }
    }
}

#[test]
fn what_hooks_say_at_the_start_joins_the_system_prompt() {
    let mut agent = test_agent();
    let payload = agent.start_payload();
    assert_eq!(payload.event, "SessionStart");
    assert_eq!(payload.session_id, "test");
    assert_eq!(payload.cwd, "/repo");
    assert!(payload.tool_name.is_none() && payload.prompt.is_none());

    let said = HookDecision::Proceed { context: vec!["branch: main".into()] };
    agent.refresh_system_prompt(PermissionMode::Default, &said.into_context(), &surroundings());
    let prompt = agent.session.messages[0].content.clone().unwrap();
    assert!(prompt.ends_with("\n# Session context\n\nbranch: main\n"), "got: {prompt}");

    let approved = HookDecision::Allow { reason: "fine".into() };
    assert!(approved.into_context().is_empty());
}

#[test]
fn compaction_goes_by_what_was_reported() {
    let mut agent = test_agent();
    agent.session.push(Message::user("hi"));
    assert!(!agent.needs_compaction());
    let usage = Usage {
        prompt_tokens: 1_900_000,
        completion_tokens: 1,
        total_tokens: 1_900_001,
        prompt_tokens_details: None,
    };
    agent.session.record_usage(&usage);
    assert!(agent.needs_compaction(), "the provider counts more than the estimate");
}
