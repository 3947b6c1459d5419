//! The command line: what its flags mean, and what the subcommands print.
use std::sync::Arc;

use vstd::prelude::*;
use vstd::string::StringExecFns;
use crate::agent::subagent::{definition_views, SubagentDefinition};
use crate::api::client::RequestOptions;
use crate::api::types::{text_message, Message, Role, Usage};
use crate::config::{
    compaction_point, is_threshold, mode_name, mode_named, model_entry, model_table, CliOverrides,
    Config, McpServerConfig, PermissionMode,
};
use crate::session::{
    found_session, listed, short_id, summary_views, SessionStore, SessionSummary, StoredFile,
    SummaryView,
};
use crate::text;
use crate::tools::{ToolInfo, ToolRegistry};
use crate::tui::reports::{agent_rows, list_agents, list_tools, tool_rows};

verus! {

/// The command line.
#[derive(Debug)]
pub struct Cli {
    /// Prompt to run without the interactive UI. Reads stdin when given `-`.
    pub print: Option<String>,
    /// Model to use.
    pub model: Option<String>,
    /// Permission mode: default, acceptEdits, plan, bypassPermissions.
    pub mode: Option<String>,
    /// Approve every action without asking.
    pub yes: bool,
    /// Directory to work in. Defaults to the current directory.
    pub cwd: Option<String>,
    /// Resume a session by id or unique id prefix.
    pub resume: Option<String>,
    /// Resume the most recent session in this directory.
    pub continue_last: bool,
    /// Override the API base URL.
    pub base_url: Option<String>,
    /// Cap the tokens in each response.
    pub max_tokens: Option<u32>,
    /// Write debug logs to this file.
    pub log_file: Option<String>,
    pub command: Option<Command>,
}

#[derive(Debug, Clone, Copy, PartialEq, Eq, Structural)]
pub enum Command {
    /// List saved sessions for this directory.
    Sessions,
    /// Print the resolved configuration and exit.
    Config,
    /// List available tools and exit.
    Tools,
    /// Check that the API key and endpoint work.
    Doctor,
}

// ---------------------------------------------------------------------------
// Flags
// ---------------------------------------------------------------------------

/// The permission mode that the flags ask for. An explicit mode wins over the
/// approval of everything.
pub open spec fn asked_mode(mode: Option<Seq<char>>, yes: bool) -> Result<
    Option<PermissionMode>,
    Seq<char>,
> {
    match mode {
        Some(raw) => match mode_named(text::trimmed(raw)) {
            Some(m) => Ok(Some(m)),
            None => Err("`"@ + raw + "` is not a permission mode"@),
        },
        None => if yes {
            Ok(Some(PermissionMode::BypassPermissions))
        } else {
            Ok(None)
        },
    }
}

/// The settings that the flags override.
pub fn overrides(cli: &Cli) -> (r: Result<CliOverrides, String>)
    ensures
        match asked_mode(text::opt_view(cli.mode), cli.yes) {
            Ok(mode) => r matches Ok(o) && {
                &&& text::opt_view(o.model) == text::opt_view(cli.model)
                &&& text::opt_view(o.base_url) == text::opt_view(cli.base_url)
                &&& o.permission_mode == mode
                &&& o.max_tokens == cli.max_tokens
            },
            Err(e) => r matches Err(said) && said@ == e,
        },
{
    let mode = match &cli.mode {
        Some(raw) => match PermissionMode::parse(raw) {
            Some(m) => Some(m),
            None => {
                let mut t = "`".to_owned();
                t.append(raw);
                t.append("` is not a permission mode");
                return Err(t);
            },
        },
        None => if cli.yes {
            Some(PermissionMode::BypassPermissions)
        } else {
            None
        },
    };
    Ok(
        CliOverrides {
            model: crate::api::types::clone_text(&cli.model),
            base_url: crate::api::types::clone_text(&cli.base_url),
            permission_mode: mode,
            max_tokens: cli.max_tokens,
        },
    )
}

/// What a missing key is answered with.
pub const NO_KEY: &'static str = "XAI_API_KEY is not set.\n\nGet a key from https://console.x.ai/ then either export it:\n    export XAI_API_KEY=...\nor put it in a .env file in this directory:\n    XAI_API_KEY=...";

/// Refuses to start without a key.
pub fn require_key(api_key: &str) -> (r: Result<(), String>)
    ensures
        match r {
            Ok(_) => text::trimmed(api_key@).len() > 0,
            Err(e) => text::trimmed(api_key@).len() == 0 && e@ == NO_KEY@,
        },
{
    if text::chars_of(&text::trim(api_key)).len() == 0 {
        Err(NO_KEY.to_owned())
    } else {
        Ok(())
    }
}

/// Whether a prompt is read from the standard input, so that the program can
/// sit in a pipeline.
pub fn reads_stdin(raw: &str) -> (r: bool)
    ensures
        r == (raw@ == "-"@),
{
    text::same(raw, "-")
}

/// The prompt of a run: what is given, or what stands on the standard input.
pub fn read_prompt(raw: &str, stdin: &str) -> (r: Result<String, String>)
    ensures
        match r {
            Ok(p) => p@ == (if raw@ == "-"@ {
                stdin@
            } else {
                raw@
            }) && (raw@ == "-"@ ==> text::trimmed(stdin@).len() > 0),
            Err(e) => raw@ == "-"@ && text::trimmed(stdin@).len() == 0 && e@
                == "no prompt on stdin"@,
        },
{
    if !text::same(raw, "-") {
        return Ok(raw.to_owned());
    }
    if text::chars_of(&text::trim(stdin)).len() == 0 {
        return Err("no prompt on stdin".to_owned());
    }
    Ok(stdin.to_owned())
}

// ---------------------------------------------------------------------------
// The session
// ---------------------------------------------------------------------------

/// Where a session comes from.
#[derive(Debug)]
pub enum SessionStart {
    /// From a transcript.
    Resume(SessionSummary),
    /// A new one, with a transcript.
    Create,
    /// A new one that is not kept.
    InMemory,
}

/// Where a session comes from, as text.
pub enum StartView {
    Resume(SummaryView),
    Create,
    InMemory,
}

impl View for SessionStart {
    type V = StartView;

    open spec fn view(&self) -> StartView {
        match *self {
            SessionStart::Resume(s) => StartView::Resume(s@),
            SessionStart::Create => StartView::Create,
            SessionStart::InMemory => StartView::InMemory,
        }
    }
}

/// Where the session of a run comes from.
pub open spec fn session_start(
    resume: Option<Seq<char>>,
    continue_last: bool,
    has_store: bool,
    list: Seq<SummaryView>,
) -> Result<StartView, Seq<char>> {
    match resume {
        Some(id) => if !has_store {
            Err("cannot resume: no session directory available"@)
        } else {
            match found_session(list, id) {
                Some(s) => Ok(StartView::Resume(s)),
                None => Err(
                    "no session matching `"@ + id + "`. Run `grok sessions` to list them."@,
                ),
            }
        },
        None => if continue_last {
            if !has_store {
                Err("cannot continue: no session directory available"@)
            } else if list.len() == 0 {
                Err("no earlier sessions in this directory"@)
            } else {
                Ok(StartView::Resume(list[0]))
            }
        } else if has_store {
            Ok(StartView::Create)
        } else {
            Ok(StartView::InMemory)
        },
    }
}

/// Where the session of a run comes from, given the files of the store.
pub fn resolve_session(
    cli: &Cli,
    store: Option<&SessionStore>,
    files: &Vec<StoredFile>,
) -> (r: Result<SessionStart, String>)
    ensures
        match session_start(
            text::opt_view(cli.resume),
            cli.continue_last,
            store is Some,
            listed(files@),
        ) {
            Ok(start) => r matches Ok(s) && s@ == start,
            Err(e) => r matches Err(said) && said@ == e,
        },
{
    match &cli.resume {
        Some(id) => match store {
            None => Err("cannot resume: no session directory available".to_owned()),
            Some(store) => match store.find(files, id) {
                Some(found) => Ok(SessionStart::Resume(found)),
                None => {
                    let mut t = "no session matching `".to_owned();
                    t.append(id);
                    t.append("`. Run `grok sessions` to list them.");
                    Err(t)
                },
            },
        },
        None => if cli.continue_last {
            match store {
                None => Err("cannot continue: no session directory available".to_owned()),
                Some(store) => match store.most_recent(files) {
                    Some(found) => Ok(SessionStart::Resume(found)),
                    None => Err("no earlier sessions in this directory".to_owned()),
                },
            }
        } else {
            match store {
                Some(_) => Ok(SessionStart::Create),
                None => Ok(SessionStart::InMemory),
            }
        },
    }
}

// ---------------------------------------------------------------------------
// Subcommands
// ---------------------------------------------------------------------------

/// A row of the list of sessions.
pub open spec fn session_row(
    id: Seq<char>,
    count: Seq<char>,
    model: Seq<char>,
    title: Seq<char>,
) -> Seq<char> {
    text::left_aligned(id, 10) + "  "@ + text::left_aligned(count, 7) + "  "@ + text::left_aligned(
        model,
        26,
    ) + "  "@ + title + "\n"@
}

/// What a session is called.
pub open spec fn session_label(s: SummaryView) -> Seq<char> {
    match s.title {
        Some(t) => t,
        None => "session "@ + short_id(s.id),
    }
}

/// The rows of a list of sessions.
pub open spec fn session_rows(list: Seq<SummaryView>) -> Seq<char>
    decreases list.len(),
{
    if list.len() == 0 {
        Seq::empty()
    } else {
        session_rows(list.drop_last()) + session_row(
            short_id(list.last().id),
            text::decimal(list.last().message_count as nat),
            list.last().model,
            session_label(list.last()),
        )
    }
}

/// Whether the ids of sessions can be cut to eight bytes.
pub open spec fn ids_can_be_cut(list: Seq<SummaryView>) -> bool {
    forall|i: int|
        0 <= i < list.len() ==> text::byte_count(short_id((#[trigger] list[i]).id)) == 8
            || short_id(list[i].id) == list[i].id
}

fn row_for(id: &str, count: &str, model: &str, title: &str) -> (r: String)
    ensures
        r@ == session_row(id@, count@, model@, title@),
{
    let mut row = text::pad_right(id, 10);
    row.append("  ");
    row.append(&text::pad_right(count, 7));
    row.append("  ");
    row.append(&text::pad_right(model, 26));
    row.append("  ");
    row.append(title);
    row.append("\n");
    row
}

/// What `grok sessions` prints. There are no sessions to speak of where there
/// is no session directory.
pub fn print_sessions(workspace: &str, sessions: Option<&Vec<SessionSummary>>) -> (r: String)
    requires
        sessions matches Some(list) ==> ids_can_be_cut(summary_views(list@)),
    ensures
        r@ == (match sessions {
            None => "No session directory available.\n"@,
            Some(list) => if list@.len() == 0 {
                "No sessions for "@ + workspace@ + "\n"@
            } else {
                session_row("ID"@, "MSGS"@, "MODEL"@, "TITLE"@) + session_rows(
                    summary_views(list@),
                )
            },
        }),
{
    let list = match sessions {
        None => {
            return "No session directory available.\n".to_owned();
        },
        Some(list) => list,
    };
    if list.len() == 0 {
        let mut t = "No sessions for ".to_owned();
        t.append(workspace);
        t.append("\n");
        return t;
    }
    let ghost all = summary_views(list@);
    let mut rows = String::new();
    let mut i: usize = 0;
    assert(rows@ =~= Seq::<char>::empty());
    while i < list.len()
        invariant
            i <= list.len(),
            all == summary_views(list@),
            ids_can_be_cut(all),
            rows@ == session_rows(all.take(i as int)),
        decreases list.len() - i,
    {
        assert(all.take(i + 1).drop_last() =~= all.take(i as int));
        assert(all[i as int] == list@[i as int]@);
        let s = &list[i];
        rows.append(
            &row_for(
                &text::fit(&s.id, 8),
                &text::number(s.message_count as u64),
                &s.model,
                &s.label(),
            ),
        );
        i += 1;
    }
    assert(all.take(all.len() as int) =~= all);
    let mut out = row_for("ID", "MSGS", "MODEL", "TITLE");
    out.append(&rows);
    out
}

/// A heading with indented lines, and nothing where there are none.
pub open spec fn rule_rows(heading: Seq<char>, rules: Seq<Seq<char>>) -> Seq<char> {
    if rules.len() == 0 {
        ""@
    } else {
        "\n"@ + heading + "\n"@ + listed_rules(rules)
    }
}

/// Rules, one to a line.
pub open spec fn listed_rules(rules: Seq<Seq<char>>) -> Seq<char>
    decreases rules.len(),
{
    if rules.len() == 0 {
        Seq::empty()
    } else {
        listed_rules(rules.drop_last()) + ("  "@ + rules.last() + "\n"@)
    }
}

/// Servers with their commands, one to a line.
pub open spec fn server_lines(servers: Seq<(String, McpServerConfig)>) -> Seq<char>
    decreases servers.len(),
{
    if servers.len() == 0 {
        Seq::empty()
    } else {
        let (name, server) = servers.last();
        server_lines(servers.drop_last()) + ("  "@ + text::left_aligned(name@, 18) + " "@
            + server.command@ + " "@ + text::joined(text::views(server.args@), " "@) + "\n"@)
    }
}

/// What `grok config` prints. It never prints the key itself.
pub open spec fn config_text(config: Config) -> Seq<char> {
    let window = model_entry(model_table(), config.model@).1;
    "workspace          "@ + config.workspace@ + "\nmodel              "@ + config.model@
        + "\nbase_url           "@ + config.base_url@ + "\npermission_mode    "@ + mode_name(
        config.permission_mode,
    ) + "\ncontext_window     "@ + text::decimal(window as nat) + "\ncompact_at         "@
        + text::decimal(compaction_point(window as nat, config.auto_compact_threshold))
        + "\nmax_tool_iterations "@ + text::decimal(config.max_tool_iterations as nat)
        + "\ntheme              "@ + config.theme@ + "\napi_key            "@ + (if config.api_key@.len()
        == 0 {
        "not set"@
    } else {
        "set"@
    }) + "\n"@ + rule_rows("allow"@, text::views(config.permissions.allow@)) + rule_rows(
        "deny"@,
        text::views(config.permissions.deny@),
    ) + (if config.mcp_servers.entries@.len() == 0 {
        ""@
    } else {
        "\nmcp servers\n"@ + server_lines(config.mcp_servers.entries@)
    })
}

fn list_rules(heading: &str, rules: &Vec<String>) -> (r: String)
    ensures
        r@ == rule_rows(heading@, text::views(rules@)),
{
    if rules.len() == 0 {
        return "".to_owned();
    }
    let ghost all = text::views(rules@);
    let mut rows = String::new();
    let mut i: usize = 0;
    assert(rows@ =~= Seq::<char>::empty());
    while i < rules.len()
        invariant
            i <= rules.len(),
            all == text::views(rules@),
            rows@ == listed_rules(all.take(i as int)),
        decreases rules.len() - i,
    {
        assert(all.take(i + 1).drop_last() =~= all.take(i as int));
        assert(all[i as int] == rules@[i as int]@);
        let mut row = "  ".to_owned();
        row.append(&rules[i]);
        row.append("\n");
        rows.append(&row);
        i += 1;
    }
    assert(all.take(all.len() as int) =~= all);
    let mut out = "\n".to_owned();
    out.append(heading);
    out.append("\n");
    out.append(&rows);
    out
}

fn list_servers(servers: &Vec<(String, McpServerConfig)>) -> (r: String)
    ensures
        r@ == server_lines(servers@),
{
    let mut rows = String::new();
    let mut i: usize = 0;
    assert(rows@ =~= Seq::<char>::empty());
    while i < servers.len()
        invariant
            i <= servers.len(),
            rows@ == server_lines(servers@.take(i as int)),
        decreases servers.len() - i,
    {
        assert(servers@.take(i + 1).drop_last() =~= servers@.take(i as int));
        let mut row = "  ".to_owned();
        row.append(&text::pad_right(&servers[i].0, 18));
        row.append(" ");
        row.append(&servers[i].1.command);
        row.append(" ");
        row.append(&text::join(&servers[i].1.args, " "));
        row.append("\n");
        rows.append(&row);
        i += 1;
    }
    assert(servers@.take(servers@.len() as int) =~= servers@);
    rows
}

/// What `grok config` prints.
pub fn print_config(config: &Config) -> (r: String)
    requires
        is_threshold(config.auto_compact_threshold),
    ensures
        r@ == config_text(*config),
{
    let mut out = "workspace          ".to_owned();
    out.append(&config.workspace);
    out.append("\nmodel              ");
    out.append(&config.model);
    out.append("\nbase_url           ");
    out.append(&config.base_url);
    out.append("\npermission_mode    ");
    out.append(config.permission_mode.as_str());
    out.append("\ncontext_window     ");
    out.append(&text::number(config.context_window()));
    out.append("\ncompact_at         ");
    out.append(&text::number(config.compact_at()));
    out.append("\nmax_tool_iterations ");
    out.append(&text::number(config.max_tool_iterations as u64));
    out.append("\ntheme              ");
    out.append(&config.theme);
    out.append("\napi_key            ");
    if text::chars_of(&config.api_key).len() == 0 {
        out.append("not set");
    } else {
        out.append("set");
    }
    out.append("\n");
    out.append(&list_rules("allow", &config.permissions.allow));
    out.append(&list_rules("deny", &config.permissions.deny));
    if config.mcp_servers.entries.len() == 0 {
        out.append("");
    } else {
        let mut servers = "\nmcp servers\n".to_owned();
        servers.append(&list_servers(&config.mcp_servers.entries));
        out.append(&servers);
    }
    out
}

/// What `grok tools` prints of a list of tools.
pub open spec fn tools_text(tools: Seq<Arc<ToolInfo>>, agents: Seq<SubagentDefinition>) -> Seq<
    char,
> {
    tool_rows(tools, ""@, 18) + (if agents.len() == 0 {
        ""@
    } else {
        "\nsubagents\n"@ + agent_rows(definition_views(agents), 16)
    })
}

/// What `grok tools` prints.
pub fn print_tools(tools: &ToolRegistry, agents: &Vec<SubagentDefinition>) -> (r: String)
    ensures
        r@ == tools_text(tools.tools@, agents@),
{
    let mut out = list_tools(&tools.tools, "", 18);
    if agents.len() == 0 {
        out.append("");
    } else {
        let mut below = "\nsubagents\n".to_owned();
        below.append(&list_agents(agents, 16));
        out.append(&below);
    }
    out
}

/// What `grok doctor` prints before it asks the API, and whether it can ask.
pub fn doctor(config: &Config) -> (r: (String, bool))
    ensures
        r.0@ == "workspace   "@ + config.workspace@ + "\nmodel       "@ + config.model@
            + "\nendpoint    "@ + config.base_url@ + "\n"@ + (if text::trimmed(
            config.api_key@,
        ).len() == 0 {
            "\nXAI_API_KEY is not set.\nGet a key from https://console.x.ai/ and export it, or put it in .env\n"@
        } else {
            "api key     set ("@ + text::decimal(text::byte_count(config.api_key@)) + " chars)\n"@
        }),
        r.1 == (text::trimmed(config.api_key@).len() > 0),
{
    let mut out = "workspace   ".to_owned();
    out.append(&config.workspace);
    out.append("\nmodel       ");
    out.append(&config.model);
    out.append("\nendpoint    ");
    out.append(&config.base_url);
    out.append("\n");
    if text::chars_of(&text::trim(&config.api_key)).len() == 0 {
        out.append(
            "\nXAI_API_KEY is not set.\nGet a key from https://console.x.ai/ and export it, or put it in .env\n",
        );
        return (out, false);
    }
    let mut key = "api key     set (".to_owned();
    key.append(&text::number(text::byte_len(&config.api_key) as u64));
    key.append(" chars)\n");
    out.append(&key);
    (out, true)
}

/// The one cheap request that checks the key and the endpoint.
pub fn doctor_request(config: &Config) -> (r: (Message, RequestOptions))
    ensures
        r.0@ == text_message(Role::User, "Reply with the single word: ok"@),
        r.1.model@ == config.model@,
        r.1.max_tokens == Some(16u32),
        r.1.temperature is None,
        r.1.reasoning_effort is None,
{
    (
        Message::user("Reply with the single word: ok"),
        RequestOptions {
            model: config.model.clone(),
            max_tokens: Some(16),
            temperature: None,
            reasoning_effort: None,
        },
    )
}

/// What `grok doctor` prints where the API has answered. `shown` is the answer,
/// quoted.
pub fn doctor_answer(shown: &str, usage: &Usage) -> (r: String)
    ensures
        r@ == "ok\nresponse    "@ + shown@ + "\ntokens      "@ + text::decimal(
            usage.prompt_tokens as nat,
        ) + " in, "@ + text::decimal(usage.completion_tokens as nat) + " out\n"@,
{
    let mut out = "ok\nresponse    ".to_owned();
    out.append(shown);
    out.append("\ntokens      ");
    out.append(&text::number(usage.prompt_tokens));
    out.append(" in, ");
    out.append(&text::number(usage.completion_tokens));
    out.append(" out\n");
    out
}

/// Why there is no interactive interface without a terminal.
pub const NO_TERMINAL: &'static str = "the interactive interface needs a terminal.\n\nFor scripts and pipelines use non-interactive mode instead:\n    grok -p \"your prompt\"\n    echo \"your prompt\" | grok -p -";

// ---------------------------------------------------------------------------
// Laws
// ---------------------------------------------------------------------------

/// Approving everything bypasses permissions, but an explicit mode wins.
pub proof fn law_an_explicit_mode_wins(mode: Option<Seq<char>>, yes: bool)
    ensures
        mode is Some ==> asked_mode(mode, yes) == asked_mode(mode, false),
        mode is None && yes ==> asked_mode(mode, yes) == Ok::<_, Seq<char>>(
            Some(PermissionMode::BypassPermissions),
        ),
{
}

/// What is printed of the configuration does not depend on the key, beyond
/// whether there is one.
pub proof fn law_the_key_is_never_printed(a: Config, b: Config)
    requires
        a.workspace@ == b.workspace@,
        a.model@ == b.model@,
        a.base_url@ == b.base_url@,
        a.permission_mode == b.permission_mode,
        a.auto_compact_threshold == b.auto_compact_threshold,
        a.max_tool_iterations == b.max_tool_iterations,
        a.theme@ == b.theme@,
        a.permissions == b.permissions,
        a.mcp_servers == b.mcp_servers,
        a.api_key@.len() == 0 <==> b.api_key@.len() == 0,
    ensures
        config_text(a) == config_text(b),
{
}

/// A session is resumed only where there is a store and the flags ask for it,
/// and a run that asks for none always has a session to start with.
pub proof fn law_sessions_are_resumed_on_request(
    resume: Option<Seq<char>>,
    continue_last: bool,
    has_store: bool,
    list: Seq<SummaryView>,
)
    ensures
        session_start(resume, continue_last, has_store, list) matches Ok(StartView::Resume(s)) ==> (
        has_store && (resume is Some || continue_last)),
        resume is None && !continue_last ==> session_start(resume, continue_last, has_store, list)
            is Ok,
{
}

} // verus!
