//! The reports that slash commands show about the agent.
use std::sync::Arc;

use vstd::prelude::*;
use vstd::string::StringExecFns;
use crate::agent::subagent::{definition_views, DefinitionView, SubagentDefinition};
use crate::agent::Agent;
use crate::api::types::{cached, message_bytes, message_views, Message, MessageView, Usage};
use crate::commands::{dispatched, ActionView, CommandView};
use crate::config::{
    compaction_point, is_threshold, law_every_model_has_a_window, model_entry, model_info,
    model_table, McpServerConfig, PermissionMode,
};
use crate::session::{
    context_size, context_tokens, countable, lemma_context_prefix, SessionView,
};
use crate::table::{comes_before, precedes, Table};
use crate::text;
use crate::tools::{ToolInfo, ToolKind, ToolRegistry};
use crate::tui::figures::{exceeds, is_over, one_decimal, percent, percentage, with_one_decimal};
use crate::tui::App;

verus! {

// ---------------------------------------------------------------------------
// Context
// ---------------------------------------------------------------------------

/// What a role has sent: how many messages, and the tokens they are estimated
/// to take, four bytes to a token.
#[derive(Debug)]
pub struct Tally {
    pub role: String,
    pub count: usize,
    pub tokens: u64,
}

/// What a role has sent, as text.
pub type TallyView = (Seq<char>, nat, nat);

impl View for Tally {
    type V = TallyView;

    open spec fn view(&self) -> TallyView {
        (self.role@, self.count as nat, self.tokens as nat)
    }
}

/// The tallies of a list, as text.
pub open spec fn tally_views(list: Seq<Tally>) -> Seq<TallyView> {
    list.map_values(|t: Tally| t@)
}

/// Tallies, by the name of the role, with one more message.
pub open spec fn tallied(rows: Seq<TallyView>, role: Seq<char>, tokens: nat) -> Seq<TallyView>
    decreases rows.len(),
{
    if rows.len() == 0 || precedes(role, rows[0].0) {
        seq![(role, 1nat, tokens)] + rows
    } else if rows[0].0 == role {
        rows.update(0, (role, rows[0].1 + 1, rows[0].2 + tokens))
    } else {
        seq![rows[0]] + tallied(rows.skip(1), role, tokens)
    }
}

/// What each role has sent, by the name of the role.
pub open spec fn tallies(messages: Seq<MessageView>) -> Seq<TallyView>
    decreases messages.len(),
{
    if messages.len() == 0 {
        Seq::empty()
    } else {
        tallied(
            tallies(messages.drop_last()),
            messages.last().role,
            (message_bytes(messages.last()) + 3) / 4,
        )
    }
}

/// Tallies, one to a line.
pub open spec fn tally_rows(rows: Seq<TallyView>) -> Seq<char>
    decreases rows.len(),
{
    if rows.len() == 0 {
        Seq::empty()
    } else {
        tally_rows(rows.drop_last()) + ("  "@ + text::left_aligned(rows.last().0, 10) + " "@
            + text::right_aligned(text::decimal(rows.last().1), 4, ' ') + " messages  ~"@
            + text::decimal(rows.last().2) + " tokens\n"@)
    }
}

/// A share in percent, with one decimal and no more than 999.
pub open spec fn share_text(used: u64, window: u64) -> Seq<char> {
    let (m, s) = percentage(used as nat, window as nat);
    if exceeds(m, s, 999) {
        "999.0"@
    } else {
        one_decimal(m, s)
    }
}

/// What `/context` shows.
pub open spec fn context_text(
    model: Seq<char>,
    reported: u64,
    session: SessionView,
    compact_at: nat,
) -> Seq<char> {
    let window = model_entry(model_table(), model).1;
    let used = if reported > 0 {
        reported
    } else {
        context_size(session) as u64
    };
    "Context: "@ + text::decimal(used as nat) + " of "@ + text::decimal(window as nat)
        + " tokens ("@ + share_text(used, window) + "%)\nCompaction triggers at "@ + text::decimal(
        compact_at,
    ) + " tokens\n\nBy role:\n"@ + tally_rows(tallies(session.messages))
}

/// Adds a message to the tallies.
fn count_message(rows: &mut Vec<Tally>, role: &str, tokens: u64)
    requires
        forall|k: int|
            0 <= k < old(rows)@.len() ==> (#[trigger] old(rows)@[k]).count < usize::MAX && old(
                rows,
            )@[k].tokens + tokens <= u64::MAX,
    ensures
        tally_views(final(rows)@) == tallied(tally_views(old(rows)@), role@, tokens as nat),
        forall|k: int|
            0 <= k < final(rows)@.len() ==> {
                ||| (#[trigger] final(rows)@[k]).count == 1 && final(rows)@[k].tokens == tokens
                ||| exists|j: int|
                    0 <= j < old(rows)@.len() && final(rows)@[k].count <= (#[trigger] old(
                        rows,
                    )@[j]).count + 1 && final(rows)@[k].tokens <= old(rows)@[j].tokens + tokens
            },
{
    let ghost all = tally_views(rows@);
    let ghost start = rows@;
    let mut i: usize = 0;
    assert(all.skip(0) =~= all);
    assert(all.take(0) + tallied(all, role@, tokens as nat) =~= tallied(all, role@, tokens as nat));
    while i < rows.len() && !comes_before(role, &rows[i].role) && !text::same(&rows[i].role, role)
        invariant
            i <= rows@.len(),
            rows@ == start,
            all == tally_views(start),
            tallied(all, role@, tokens as nat) == all.take(i as int) + tallied(
                all.skip(i as int),
                role@,
                tokens as nat,
            ),
        decreases rows@.len() - i,
    {
        assert(all.skip(i as int)[0] == all[i as int]);
        assert(all[i as int] == rows@[i as int]@);
        assert(all.skip(i as int).skip(1) =~= all.skip(i + 1));
        assert(all.take(i as int) + (seq![all[i as int]] + tallied(
            all.skip(i + 1),
            role@,
            tokens as nat,
        )) =~= all.take(i + 1) + tallied(all.skip(i + 1), role@, tokens as nat));
        i += 1;
    }
    proof {
        if i < rows@.len() {
            assert(all.skip(i as int)[0] == all[i as int]);
            assert(all[i as int] == rows@[i as int]@);
        }
    }
    if i < rows.len() && text::same(&rows[i].role, role) && !comes_before(role, &rows[i].role) {
        let one = Tally {
            role: role.to_owned(),
            count: rows[i].count + 1,
            tokens: rows[i].tokens + tokens,
        };
        rows[i] = one;
        assert(tally_views(rows@) =~= all.take(i as int) + all.skip(i as int).update(
            0,
            (role@, all[i as int].1 + 1, all[i as int].2 + tokens as nat),
        ));
    } else {
        rows.insert(i, Tally { role: role.to_owned(), count: 1, tokens });
        assert(tally_views(rows@) =~= all.take(i as int) + (seq![(role@, 1nat, tokens as nat)]
            + all.skip(i as int)));
    }
    proof {
        assert forall|k: int| 0 <= k < rows@.len() implies {
            ||| (#[trigger] rows@[k]).count == 1 && rows@[k].tokens == tokens
            ||| exists|j: int|
                0 <= j < start.len() && rows@[k].count <= (#[trigger] start[j]).count + 1
                    && rows@[k].tokens <= start[j].tokens + tokens
        } by {
            if rows@.len() == start.len() || k < i {
                assert(rows@[k].count <= start[k].count + 1);
            } else if k > i {
                assert(rows@[k] == start[k - 1]);
            }
        }
    }
}

/// What each role has sent, by the name of the role.
pub fn tally_roles(messages: &Vec<Message>) -> (r: Vec<Tally>)
    requires
        countable(message_views(messages@)),
    ensures
        tally_views(r@) == tallies(message_views(messages@)),
{
    let ghost all = message_views(messages@);
    let mut rows: Vec<Tally> = Vec::new();
    let mut i: usize = 0;
    assert(tally_views(rows@) =~= Seq::<TallyView>::empty());
    while i < messages.len()
        invariant
            i <= messages.len(),
            all == message_views(messages@),
            countable(all),
            tally_views(rows@) == tallies(all.take(i as int)),
            forall|k: int|
                0 <= k < rows@.len() ==> (#[trigger] rows@[k]).count <= i && rows@[k].tokens
                    <= context_tokens(all.take(i as int)),
        decreases messages.len() - i,
    {
        proof {
            lemma_context_prefix(all, i + 1);
            assert(all.take(i + 1).drop_last() =~= all.take(i as int));
            assert(message_bytes(all[i as int]) <= usize::MAX);
            assert(all[i as int] == messages@[i as int]@);
        }
        let bytes: usize = messages[i].char_len();
        let tokens: usize = if bytes % 4 == 0 {
            bytes / 4
        } else {
            bytes / 4 + 1
        };
        count_message(&mut rows, &messages[i].role, tokens as u64);
        i += 1;
    }
    assert(all.take(all.len() as int) =~= all);
    rows
}

/// How full the context window is, and who fills it.
pub fn context_report(app: &App, agent: &Agent) -> (r: String)
    requires
        countable(agent.session@.messages),
        is_threshold(agent.config.auto_compact_threshold),
    ensures
        r@ == context_text(
            app.model@,
            app.context_tokens,
            agent.session@,
            compaction_point(
                model_entry(model_table(), agent.config.model@).1 as nat,
                agent.config.auto_compact_threshold,
            ),
        ),
{
    let session = &agent.session;
    let window: u64 = model_info(&app.model).context_window;
    let used: u64 = if app.context_tokens > 0 {
        app.context_tokens
    } else {
        session.estimated_context_tokens()
    };
    proof {
        law_every_model_has_a_window(app.model@);
    }
    let x = percent(used, window);
    let share = if is_over(x, 999) {
        "999.0".to_owned()
    } else {
        with_one_decimal(x)
    };
    let list = tally_roles(&session.messages);
    let ghost all = tally_views(list@);
    let mut rows = String::new();
    let mut i: usize = 0;
    assert(rows@ =~= Seq::<char>::empty());
    while i < list.len()
        invariant
            i <= list.len(),
            all == tally_views(list@),
            rows@ == tally_rows(all.take(i as int)),
        decreases list.len() - i,
    {
        assert(all.take(i + 1).drop_last() =~= all.take(i as int));
        assert(all[i as int] == list@[i as int]@);
        let mut row = "  ".to_owned();
        row.append(&text::pad_right(&list[i].role, 10));
        row.append(" ");
        row.append(&text::pad_left(&text::number(list[i].count as u64), 4, ' '));
        row.append(" messages  ~");
        row.append(&text::number(list[i].tokens));
        row.append(" tokens\n");
        rows.append(&row);
        i += 1;
    }
    assert(all.take(all.len() as int) =~= all);
    let mut out = "Context: ".to_owned();
    out.append(&text::number(used));
    out.append(" of ");
    out.append(&text::number(window));
    out.append(" tokens (");
    out.append(&share);
    out.append("%)\nCompaction triggers at ");
    out.append(&text::number(agent.config.compact_at()));
    out.append(" tokens\n\nBy role:\n");
    out.append(&rows);
    out
}

// ---------------------------------------------------------------------------
// Cost
// ---------------------------------------------------------------------------

/// A figure in a column of nine.
pub open spec fn column(n: u64) -> Seq<char> {
    text::right_aligned(text::decimal(n as nat), 9, ' ')
}

/// What `/cost` shows.
pub open spec fn cost_text(usage: Usage, model: Seq<char>) -> Seq<char> {
    "Session usage\n\n  input      "@ + column(usage.prompt_tokens) + "\n  cached     "@ + column(
        cached(usage),
    ) + "\n  output     "@ + column(usage.completion_tokens) + "\n  total      "@ + column(
        usage.total_tokens,
    ) + "\n\nModel: "@ + model
}

/// The tokens that the session has used.
pub fn cost_report(app: &App) -> (r: String)
    ensures
        r@ == cost_text(app.usage, app.model@),
{
    let mut out = "Session usage\n\n  input      ".to_owned();
    out.append(&text::pad_left(&text::number(app.usage.prompt_tokens), 9, ' '));
    out.append("\n  cached     ");
    out.append(&text::pad_left(&text::number(app.usage.cached_tokens()), 9, ' '));
    out.append("\n  output     ");
    out.append(&text::pad_left(&text::number(app.usage.completion_tokens), 9, ' '));
    out.append("\n  total      ");
    out.append(&text::pad_left(&text::number(app.usage.total_tokens), 9, ' '));
    out.append("\n\nModel: ");
    out.append(&app.model);
    out
}

// ---------------------------------------------------------------------------
// Tools
// ---------------------------------------------------------------------------

/// The name of a class of tools.
pub open spec fn kind_name(kind: ToolKind) -> Seq<char> {
    match kind {
        ToolKind::Read => "Read"@,
        ToolKind::Edit => "Edit"@,
        ToolKind::Execute => "Execute"@,
        ToolKind::Network => "Network"@,
        ToolKind::Meta => "Meta"@,
    }
}

/// The name of a class of tools.
pub fn kind_text(kind: ToolKind) -> (r: &'static str)
    ensures
        r@ == kind_name(kind),
{
    match kind {
        ToolKind::Read => "Read",
        ToolKind::Edit => "Edit",
        ToolKind::Execute => "Execute",
        ToolKind::Network => "Network",
        ToolKind::Meta => "Meta",
    }
}

/// Tools with their classes, one to a line, with `margin` before the name and
/// the name in a column.
pub open spec fn tool_rows(tools: Seq<Arc<ToolInfo>>, margin: Seq<char>, width: nat) -> Seq<char>
    decreases tools.len(),
{
    if tools.len() == 0 {
        Seq::empty()
    } else {
        tool_rows(tools.drop_last(), margin, width) + (margin + text::left_aligned(
            tools.last().name@,
            width,
        ) + " "@ + kind_name(tools.last().kind) + "\n"@)
    }
}

/// Tools with their classes, one to a line.
pub(crate) fn list_tools(tools: &Vec<Arc<ToolInfo>>, margin: &str, width: usize) -> (r: String)
    ensures
        r@ == tool_rows(tools@, margin@, width as nat),
{
    let mut out = String::new();
    let mut i: usize = 0;
    assert(out@ =~= Seq::<char>::empty());
    while i < tools.len()
        invariant
            i <= tools.len(),
            out@ == tool_rows(tools@.take(i as int), margin@, width as nat),
        decreases tools.len() - i,
    {
        assert(tools@.take(i + 1).drop_last() =~= tools@.take(i as int));
        let mut row = margin.to_owned();
        row.append(&text::pad_right(&tools[i].name, width));
        row.append(" ");
        row.append(kind_text(tools[i].kind));
        row.append("\n");
        out.append(&row);
        i += 1;
    }
    assert(tools@.take(tools@.len() as int) =~= tools@);
    out
}

/// What `/tools` shows.
pub open spec fn tools_text(tools: Seq<Arc<ToolInfo>>, mode: PermissionMode) -> Seq<char> {
    text::decimal(tools.len()) + " tools available\n\n"@ + tool_rows(tools, "  "@, 24) + (if mode
        == PermissionMode::Plan {
        "\nPlan mode is on, so mutating tools are hidden from the model.\n"@
    } else {
        ""@
    })
}

/// The tools that the agent has.
pub fn tools_report(tools: &ToolRegistry, mode: PermissionMode) -> (r: String)
    ensures
        r@ == tools_text(tools.tools@, mode),
{
    let mut out = text::number(tools.tools.len() as u64);
    out.append(" tools available\n\n");
    out.append(&list_tools(&tools.tools, "  ", 24));
    if mode == PermissionMode::Plan {
        out.append("\nPlan mode is on, so mutating tools are hidden from the model.\n");
    } else {
        out.append("");
    }
    out
}

// ---------------------------------------------------------------------------
// Servers
// ---------------------------------------------------------------------------

/// How many tools have names that start with `prefix`.
pub open spec fn named_with(tools: Seq<Arc<ToolInfo>>, prefix: Seq<char>) -> nat
    decreases tools.len(),
{
    if tools.len() == 0 {
        0
    } else if text::starts_with(tools.last().name@, prefix) {
        named_with(tools.drop_last(), prefix) + 1
    } else {
        named_with(tools.drop_last(), prefix)
    }
}

/// What borrowed tools of a server start with.
pub open spec fn server_prefix(server: Seq<char>) -> Seq<char> {
    "mcp__"@ + server + "__"@
}

/// How a server is doing.
pub open spec fn server_state(count: nat, disabled: bool) -> Seq<char> {
    if disabled {
        "disabled"@
    } else if count > 0 {
        text::decimal(count) + " tools"@
    } else {
        "not connected"@
    }
}

/// Servers with their states, one to a line.
pub open spec fn server_rows(
    servers: Seq<(String, McpServerConfig)>,
    tools: Seq<Arc<ToolInfo>>,
) -> Seq<char>
    decreases servers.len(),
{
    if servers.len() == 0 {
        Seq::empty()
    } else {
        let (name, config) = servers.last();
        server_rows(servers.drop_last(), tools) + ("  "@ + text::left_aligned(name@, 20) + " "@
            + server_state(named_with(tools, server_prefix(name@)), config.disabled) + "\n"@)
    }
}

/// How many tools have names that start with `prefix`.
fn count_named(tools: &Vec<Arc<ToolInfo>>, prefix: &str) -> (r: usize)
    ensures
        r == named_with(tools@, prefix@),
{
    let mut n: usize = 0;
    let mut i: usize = 0;
    while i < tools.len()
        invariant
            i <= tools.len(),
            n <= i,
            n == named_with(tools@.take(i as int), prefix@),
        decreases tools.len() - i,
    {
        assert(tools@.take(i + 1).drop_last() =~= tools@.take(i as int));
        if text::begins(&tools[i].name, prefix) {
            n += 1;
        }
        i += 1;
    }
    assert(tools@.take(tools@.len() as int) =~= tools@);
    n
}

/// What `/mcp` shows.
pub open spec fn servers_text(
    servers: Seq<(String, McpServerConfig)>,
    tools: Seq<Arc<ToolInfo>>,
) -> Seq<char> {
    if servers.len() == 0 {
        "No MCP servers configured. Add them under [mcp_servers] in .grok/config.toml."@
    } else {
        "MCP servers\n\n"@ + server_rows(servers, tools)
    }
}

/// The configured servers, by name.
pub fn mcp_report(servers: &Table<McpServerConfig>, tools: &ToolRegistry) -> (r: String)
    ensures
        r@ == servers_text(servers.entries@, tools.tools@),
{
    if servers.len() == 0 {
        return "No MCP servers configured. Add them under [mcp_servers] in .grok/config.toml.".to_owned();
    }
    let ghost all = servers.entries@;
    let mut rows = String::new();
    let mut i: usize = 0;
    assert(rows@ =~= Seq::<char>::empty());
    while i < servers.entries.len()
        invariant
            i <= servers.entries.len(),
            all == servers.entries@,
            rows@ == server_rows(all.take(i as int), tools.tools@),
        decreases servers.entries.len() - i,
    {
        assert(all.take(i + 1).drop_last() =~= all.take(i as int));
        let entry = &servers.entries[i];
        let mut prefix = "mcp__".to_owned();
        prefix.append(&entry.0);
        prefix.append("__");
        let count: usize = count_named(&tools.tools, &prefix);
        let mut row = "  ".to_owned();
        row.append(&text::pad_right(&entry.0, 20));
        row.append(" ");
        if entry.1.disabled {
            row.append("disabled");
        } else if count > 0 {
            let mut state = text::number(count as u64);
            state.append(" tools");
            row.append(&state);
        } else {
            row.append("not connected");
        }
        row.append("\n");
        rows.append(&row);
        i += 1;
    }
    assert(all.take(all.len() as int) =~= all);
    let mut out = "MCP servers\n\n".to_owned();
    out.append(&rows);
    out
}

// ---------------------------------------------------------------------------
// Subagents
// ---------------------------------------------------------------------------

/// Subagents with their descriptions, one to a line, with the name in a column.
pub open spec fn agent_rows(agents: Seq<DefinitionView>, width: nat) -> Seq<char>
    decreases agents.len(),
{
    if agents.len() == 0 {
        Seq::empty()
    } else {
        agent_rows(agents.drop_last(), width) + ("  "@ + text::left_aligned(
            agents.last().name,
            width,
        ) + " "@ + agents.last().description + "\n"@)
    }
}

/// Subagents with their descriptions, one to a line.
pub(crate) fn list_agents(agents: &Vec<SubagentDefinition>, width: usize) -> (r: String)
    ensures
        r@ == agent_rows(definition_views(agents@), width as nat),
{
    let ghost all = definition_views(agents@);
    let mut out = String::new();
    let mut i: usize = 0;
    assert(out@ =~= Seq::<char>::empty());
    while i < agents.len()
        invariant
            i <= agents.len(),
            all == definition_views(agents@),
            out@ == agent_rows(all.take(i as int), width as nat),
        decreases agents.len() - i,
    {
        assert(all.take(i + 1).drop_last() =~= all.take(i as int));
        assert(all[i as int] == agents@[i as int]@);
        let mut row = "  ".to_owned();
        row.append(&text::pad_right(&agents[i].name, width));
        row.append(" ");
        row.append(&agents[i].description);
        row.append("\n");
        out.append(&row);
        i += 1;
    }
    assert(all.take(all.len() as int) =~= all);
    out
}

/// What `/agents` shows.
pub open spec fn agents_text(agents: Seq<DefinitionView>) -> Seq<char> {
    if agents.len() == 0 {
        "No subagents defined. Add markdown files under .grok/agents/."@
    } else {
        "Subagents\n\n"@ + agent_rows(agents, 20)
    }
}

/// The subagents that are defined.
pub fn agents_report(agents: &Vec<SubagentDefinition>) -> (r: String)
    ensures
        r@ == agents_text(definition_views(agents@)),
{
    if agents.len() == 0 {
        return "No subagents defined. Add markdown files under .grok/agents/.".to_owned();
    }
    let mut out = "Subagents\n\n".to_owned();
    out.append(&list_agents(agents, 20));
    out
}

// ---------------------------------------------------------------------------
// By name
// ---------------------------------------------------------------------------

/// Whether there is a report of a name.
pub open spec fn has_report(name: Seq<char>) -> bool {
    name == "context"@ || name == "cost"@ || name == "tools"@ || name == "mcp"@ || name == "agents"@
}

/// The report of a name.
pub open spec fn report_text(app: App, agent: Agent, mode: PermissionMode, name: Seq<char>) -> Seq<
    char,
> {
    if name == "context"@ {
        context_text(
            app.model@,
            app.context_tokens,
            agent.session@,
            compaction_point(
                model_entry(model_table(), agent.config.model@).1 as nat,
                agent.config.auto_compact_threshold,
            ),
        )
    } else if name == "cost"@ {
        cost_text(app.usage, app.model@)
    } else if name == "tools"@ {
        tools_text(agent.tools.tools@, mode)
    } else if name == "mcp"@ {
        servers_text(agent.config.mcp_servers.entries@, agent.tools.tools@)
    } else if name == "agents"@ {
        agents_text(definition_views(agent.subagents@))
    } else {
        "`/"@ + name + "` has no report"@
    }
}

/// The report that a command asks for by name.
pub fn report(app: &App, agent: &Agent, mode: PermissionMode, name: &str) -> (r: String)
    requires
        countable(agent.session@.messages),
        is_threshold(agent.config.auto_compact_threshold),
    ensures
        r@ == report_text(*app, *agent, mode, name@),
{
    if text::same(name, "context") {
        context_report(app, agent)
    } else if text::same(name, "cost") {
        cost_report(app)
    } else if text::same(name, "tools") {
        tools_report(&agent.tools, mode)
    } else if text::same(name, "mcp") {
        mcp_report(&agent.config.mcp_servers, &agent.tools)
    } else if text::same(name, "agents") {
        agents_report(&agent.subagents)
    } else {
        let mut s = "`/".to_owned();
        s.append(name);
        s.append("` has no report");
        s
    }
}

// ---------------------------------------------------------------------------
// Laws
// ---------------------------------------------------------------------------

/// No command asks for a report that does not exist.
pub proof fn law_every_report_exists(line: Seq<char>, custom: Seq<CommandView>)
    ensures
        dispatched(line, custom) matches ActionView::Report(name) ==> has_report(name),
{
}

/// How many messages tallies account for.
pub open spec fn accounted(rows: Seq<TallyView>) -> nat
    decreases rows.len(),
{
    if rows.len() == 0 {
        0
    } else {
        rows[0].1 + accounted(rows.skip(1))
    }
}

proof fn lemma_accounted(rows: Seq<TallyView>, role: Seq<char>, tokens: nat)
    ensures
        accounted(tallied(rows, role, tokens)) == accounted(rows) + 1,
    decreases rows.len(),
{
    let after = tallied(rows, role, tokens);
    if rows.len() == 0 || precedes(role, rows[0].0) {
        assert(after.skip(1) =~= rows);
    } else if rows[0].0 == role {
        assert(after.skip(1) =~= rows.skip(1));
    } else {
        lemma_accounted(rows.skip(1), role, tokens);
        assert(after.skip(1) =~= tallied(rows.skip(1), role, tokens));
    }
}

/// The rows of the roles account for every message, once.
pub proof fn law_every_message_is_counted_once(messages: Seq<MessageView>)
    ensures
        accounted(tallies(messages)) == messages.len(),
    decreases messages.len(),
{
    if messages.len() > 0 {
        law_every_message_is_counted_once(messages.drop_last());
        lemma_accounted(
            tallies(messages.drop_last()),
            messages.last().role,
            (message_bytes(messages.last()) + 3) / 4,
        );
    }
}

} // verus!
