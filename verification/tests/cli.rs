use grok_cli::agent::subagent::SubagentDefinition;
use grok_cli::agent::Agent;
use grok_cli::api::types::{Message, Usage};
use grok_cli::cli::{
    doctor, doctor_answer, doctor_request, overrides, print_config, print_sessions, print_tools,
    read_prompt, reads_stdin, require_key, resolve_session, Cli, Command, SessionStart, NO_KEY,
};
use grok_cli::config::{
    load, CliOverrides, Config, ConfigFile, Environment, McpServerConfig, PermissionMode,
    PermissionRules,
};
use grok_cli::session::{Session, SessionStore, SessionSummary, StoredFile};
use grok_cli::table::Table;
use grok_cli::tools::ToolRegistry;
use grok_cli::tui::reports::{
    agents_report, context_report, cost_report, mcp_report, report, tally_roles, tools_report,
};
use grok_cli::tui::App;

fn cli() -> Cli {
    Cli {
        print: None,
        model: None,
        mode: None,
        yes: false,
        cwd: None,
        resume: None,
        continue_last: false,
        base_url: None,
        max_tokens: None,
        log_file: None,
        command: None,
    }
}

fn servers() -> Table<McpServerConfig> {
    let server = |disabled: bool| McpServerConfig {
        command: "npx".into(),
        args: vec!["-y".into(), "server".into()],
        env: Table::new(),
        disabled,
    };
    let mut t = Table::new();
    t.insert("fs".to_string(), server(false));
    t.insert("off".to_string(), server(true));
    t
}

fn config() -> Config {
    load(
        "/repo",
        ConfigFile {
            permissions: Some(PermissionRules {
                allow: vec!["Bash(ls)".into()],
                deny: vec!["Bash(rm:*)".into()],
                ask: vec![],
            }),
            mcp_servers: Some(servers()),
            ..ConfigFile::default()
        },
        &Environment { api_key: Some("sesame".into()), model: None, base_url: None },
        &CliOverrides { model: None, base_url: None, permission_mode: None, max_tokens: None },
    )
}

fn summary(id: &str, title: Option<&str>) -> SessionSummary {
    SessionSummary {
        id: id.into(),
        path: format!("/s/{id}.jsonl"),
        title: title.map(String::from),
        model: "grok-4".into(),
        started_at: String::new(),
        message_count: 3,
        modified: 0,
    }
}

fn auditor() -> SubagentDefinition {
    SubagentDefinition {
        name: "auditor".into(),
        description: "reviews a diff".into(),
        prompt: "You review.".into(),
        tools: None,
        model: None,
    }
}

#[test]
fn a_literal_prompt_passes_through_unchanged() {
    assert_eq!(read_prompt("fix the bug", "").unwrap(), "fix the bug");
}

#[test]
fn a_dash_reads_the_standard_input() {
    assert!(reads_stdin("-"));
    assert!(!reads_stdin("--"));
    assert_eq!(read_prompt("-", "from a pipe\n").unwrap(), "from a pipe\n");
    assert_eq!(read_prompt("-", " \n").unwrap_err(), "no prompt on stdin");
}

#[test]
fn approving_everything_bypasses_permissions_unless_a_mode_is_named() {
    let yes = Cli { yes: true, ..cli() };
    assert_eq!(
        overrides(&yes).unwrap().permission_mode,
        Some(PermissionMode::BypassPermissions)
    );
    let explicit = Cli { yes: true, mode: Some("plan".into()), ..cli() };
    assert_eq!(overrides(&explicit).unwrap().permission_mode, Some(PermissionMode::Plan));
    assert_eq!(overrides(&cli()).unwrap().permission_mode, None);
    let wrong = Cli { mode: Some("banana".into()), ..cli() };
    assert_eq!(overrides(&wrong).unwrap_err(), "`banana` is not a permission mode");
    let model = Cli { model: Some("grok-4".into()), command: Some(Command::Tools), ..cli() };
    assert_eq!(overrides(&model).unwrap().model.as_deref(), Some("grok-4"));
}

#[test]
fn nothing_starts_without_a_key() {
    assert_eq!(require_key("  ").unwrap_err(), NO_KEY);
    assert!(require_key("k").is_ok());
}

#[test]
fn sessions_are_resumed_on_request() {
    let store = SessionStore::new("/s");
    let mut older = store.create("aaaa1111", "/repo", "grok-4", Ok(()));
    older.push(Message::user("older"));
    let mut newer = store.create("bbbb2222", "/repo", "grok-4", Ok(()));
    newer.push(Message::user("newer"));
    let files: Vec<StoredFile> = [(&mut older, 1), (&mut newer, 2)]
        .into_iter()
        .map(|(s, modified)| StoredFile {
            path: s.path.clone().unwrap(),
            modified,
            lines: Some(s.take_pending().into_iter().map(Some).collect()),
        })
        .collect();

    let start = |c: &Cli| resolve_session(c, Some(&store), &files);
    assert!(matches!(start(&cli()), Ok(SessionStart::Create)));
    let last = Cli { continue_last: true, ..cli() };
    assert!(matches!(start(&last), Ok(SessionStart::Resume(s)) if s.id == "bbbb2222"));
    let named = Cli { resume: Some("aaaa".into()), ..cli() };
    assert!(matches!(start(&named), Ok(SessionStart::Resume(s)) if s.id == "aaaa1111"));
    let unknown = Cli { resume: Some("zz".into()), ..cli() };
    assert!(start(&unknown).unwrap_err().contains("no session matching `zz`"));

    assert!(matches!(resolve_session(&cli(), None, &vec![]), Ok(SessionStart::InMemory)));
    assert!(resolve_session(&last, None, &vec![]).unwrap_err().contains("cannot continue"));
    assert!(resolve_session(&named, None, &vec![]).unwrap_err().contains("cannot resume"));
    assert!(resolve_session(&last, Some(&store), &vec![]).unwrap_err().contains("no earlier"));
}

#[test]
fn sessions_are_printed_in_columns() {
    assert_eq!(print_sessions("/repo", None), "No session directory available.\n");
    assert_eq!(print_sessions("/repo", Some(&vec![])), "No sessions for /repo\n");
    let list = vec![summary("0123456789", Some("retry work")), summary("abcdefghij", None)];
    assert_eq!(
        print_sessions("/repo", Some(&list)),
        format!(
            "{:<10}  {:<7}  {:<26}  TITLE\n{:<10}  {:<7}  {:<26}  retry work\n{:<10}  {:<7}  {:<26}  session abcdefgh\n",
            "ID", "MSGS", "MODEL", "01234567", 3, "grok-4", "abcdefgh", 3, "grok-4"
        )
    );
}

#[test]
fn the_configuration_is_printed_without_the_key() {
    let out = print_config(&config());
    assert!(out.contains("workspace          /repo\n"), "got:\n{out}");
    assert!(out.contains("context_window     2000000\ncompact_at         1700000\n"), "got:\n{out}");
    assert!(out.contains("api_key            set\n"));
    assert!(!out.contains("sesame"), "the key itself is never printed");
    assert!(out.contains("\nallow\n  Bash(ls)\n\ndeny\n  Bash(rm:*)\n"), "got:\n{out}");
    assert!(out.ends_with("\nmcp servers\n  fs                 npx -y server\n  off                npx -y server\n"), "got:\n{out}");
}

#[test]
fn tools_and_subagents_are_printed() {
    let tools = ToolRegistry::with_builtins();
    let out = print_tools(&tools, &vec![auditor()]);
    assert!(out.starts_with("read_file          Read\n"), "got:\n{out}");
    assert!(out.ends_with("\nsubagents\n  auditor          reviews a diff\n"), "got:\n{out}");
    assert!(!print_tools(&tools, &vec![]).contains("subagents"));
}

#[test]
fn the_doctor_asks_only_with_a_key() {
    let (said, ready) = doctor(&config());
    assert!(ready);
    assert!(said.ends_with("api key     set (6 chars)\n"), "got:\n{said}");
    let (message, options) = doctor_request(&config());
    assert_eq!(message.content.as_deref(), Some("Reply with the single word: ok"));
    assert_eq!(options.max_tokens, Some(16));
    let keyless = Config { api_key: " ".into(), ..config() };
    let (said, ready) = doctor(&keyless);
    assert!(!ready);
    assert!(said.contains("XAI_API_KEY is not set."));
}

fn screen() -> App {
    App::new("/repo", None, "dark", "grok-3", PermissionMode::Default, "s")
}

#[test]
fn the_context_report_counts_by_role() {
    let mut session = Session::in_memory("s", "grok-3");
    session.push(Message::system("sys"));
    session.push(Message::user("abcde"));
    session.push(Message::user("abcd"));
    let mut odd = Message::user("x");
    odd.role = "narrator".into();
    session.push(odd);
    let rows: Vec<(String, usize, u64)> = tally_roles(&session.messages)
        .into_iter()
        .map(|t| (t.role, t.count, t.tokens))
        .collect();
    assert_eq!(
        rows,
        [
            ("narrator".to_string(), 1, 1),
            ("system".to_string(), 1, 1),
            ("user".to_string(), 2, 3)
        ]
    );

    let agent = Agent::new(config(), session, ToolRegistry::with_builtins(), vec![]);
    let mut app = screen();
    app.context_tokens = 65_536;
    let out = context_report(&app, &agent);
    assert!(
        out.starts_with("Context: 65536 of 131072 tokens (50.0%)\nCompaction triggers at 1700000 tokens\n"),
        "got:\n{out}"
    );
    assert!(out.contains("  user          2 messages  ~3 tokens\n"), "got:\n{out}");
    app.context_tokens = u64::MAX;
    assert!(context_report(&app, &agent).contains("(999.0%)"));
    app.context_tokens = 0;
    assert!(context_report(&app, &agent).starts_with("Context: 21 of "), "estimated otherwise");
}

#[test]
fn costs_stand_in_a_column() {
    let mut app = screen();
    app.usage.prompt_tokens = 1_234;
    app.usage.total_tokens = 1_300;
    assert_eq!(
        cost_report(&app),
        "Session usage\n\n  input           1234\n  cached             0\n  output             0\n  total           1300\n\nModel: grok-3"
    );
}

#[test]
fn reports_tell_what_is_there() {
    let tools = ToolRegistry::with_builtins();
    let out = tools_report(&tools, PermissionMode::Default);
    assert!(out.starts_with("11 tools available\n\n  read_file                Read\n"), "got:\n{out}");
    assert!(tools_report(&tools, PermissionMode::Plan).contains("Plan mode is on"));
    let out = mcp_report(&servers(), &tools);
    assert_eq!(
        out,
        "MCP servers\n\n  fs                   not connected\n  off                  disabled\n"
    );
    assert!(mcp_report(&Table::new(), &tools).contains("No MCP servers configured"));
    assert_eq!(
        agents_report(&vec![auditor()]),
        "Subagents\n\n  auditor              reviews a diff\n"
    );
    assert!(agents_report(&vec![]).contains("No subagents defined"));
}

#[test]
fn the_doctor_quotes_the_answer_and_what_it_cost() {
    let usage = Usage {
        prompt_tokens: 12,
        completion_tokens: 1,
        total_tokens: 13,
        prompt_tokens_details: None,
    };
    assert_eq!(
        doctor_answer("\"ok\"", &usage),
        "ok\nresponse    \"ok\"\ntokens      12 in, 1 out\n"
    );
}

#[test]
fn every_report_has_a_name() {
    let config = config();
    let session = Session::in_memory("s", &config.model);
    let agent = Agent::new(config, session, ToolRegistry::with_builtins(), vec![auditor()]);
    let app = App::new("/repo", None, "dark", "grok-3", PermissionMode::Default, "s");
    let named = |name: &str| report(&app, &agent, PermissionMode::Plan, name);
    assert_eq!(named("context"), context_report(&app, &agent));
    assert_eq!(named("cost"), cost_report(&app));
    assert_eq!(named("tools"), tools_report(&agent.tools, PermissionMode::Plan));
    assert_eq!(named("mcp"), mcp_report(&agent.config.mcp_servers, &agent.tools));
    assert_eq!(named("agents"), agents_report(&agent.subagents));
    assert_eq!(named("weather"), "`/weather` has no report");
}
