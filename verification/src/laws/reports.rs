//! What reports and lists say.
use std::sync::Arc;
use vstd::prelude::*;
use crate::agent::subagent::DefinitionView;
use crate::api::types::{cached, MessageView, Usage};
use crate::cli::{asked_mode, session_label, session_rows, session_start, StartView};
use crate::config::{McpServerConfig, PermissionMode};
use crate::session::{found_session, SummaryView};
use crate::text;
use crate::tools::ToolInfo;
use crate::tui::input::{cell_width, line_at, pasted};
use crate::tui::keys::{after_report, Incoming};
use crate::tui::render::{caret_place, first_shown, palette_height, palette_place, Area};
use crate::tui::reports::{
    agent_rows, cost_text, kind_name, named_with, server_rows, tallied, tally_rows, tool_rows,
    TallyView,
};
use crate::tui::{
    furthest, replayed_message, replayed_messages, resumed, App, AppView, ItemView, NoticeLevel,
};

verus! {

// ---------------------------------------------------------------------------
// Tallies
// ---------------------------------------------------------------------------

/// Whether the rows are in the order of their names, one for each.
pub open spec fn is_tally(rows: Seq<TallyView>) -> bool {
    forall|i: int, j: int|
        0 <= i < j < rows.len() ==> crate::table::precedes(
            (#[trigger] rows[i]).0,
            (#[trigger] rows[j]).0,
        )
}

/// A message is added to the row of its role, and leaves the other rows alone.
pub proof fn law_messages_go_to_their_row(
    rows: Seq<TallyView>,
    role: Seq<char>,
    tokens: nat,
    k: int,
)
    requires
        is_tally(rows),
        0 <= k < rows.len(),
        rows[k].0 == role,
    ensures
        tallied(rows, role, tokens) == rows.update(k, (role, rows[k].1 + 1, rows[k].2 + tokens)),
    decreases rows.len(),
{
    if k == 0 {
        crate::table::lemma_precedes_total(role, role);
    } else {
        let rest = rows.skip(1);
        assert(crate::table::precedes(rows[0].0, rows[k].0));
        if crate::table::precedes(role, rows[0].0) {
            crate::table::lemma_precedes_transitive(role, rows[0].0, role);
            crate::table::lemma_precedes_total(role, role);
        }
        if rows[0].0 == role {
            crate::table::lemma_precedes_total(role, role);
        }
        assert forall|i: int, j: int| 0 <= i < j < rest.len() implies crate::table::precedes(
            (#[trigger] rest[i]).0,
            (#[trigger] rest[j]).0,
        ) by {
            assert(crate::table::precedes(rows[i + 1].0, rows[j + 1].0));
        }
        law_messages_go_to_their_row(rest, role, tokens, k - 1);
        let new = (role, rows[k].1 + 1, rows[k].2 + tokens);
        assert(seq![rows[0]] + rest.update(k - 1, new) =~= rows.update(k, new));
    }
}

/// Each row is shown on a line, with its count and its tokens.
pub proof fn law_rows_are_shown(rows: Seq<TallyView>, row: TallyView)
    ensures
        tally_rows(rows.push(row)) == tally_rows(rows) + ("  "@ + text::left_aligned(row.0, 10)
            + " "@ + text::right_aligned(text::decimal(row.1), 4, ' ') + " messages  ~"@
            + text::decimal(row.2) + " tokens\n"@),
        tally_rows(Seq::empty()).len() == 0,
{
    assert(rows.push(row).drop_last() =~= rows);
}

// ---------------------------------------------------------------------------
// Lists
// ---------------------------------------------------------------------------

/// Each tool and each subagent is listed on a line of its own, in its order.
pub proof fn law_lists_have_a_line_each(
    tools: Seq<Arc<ToolInfo>>,
    t: Arc<ToolInfo>,
    margin: Seq<char>,
    agents: Seq<DefinitionView>,
    d: DefinitionView,
    width: nat,
)
    ensures
        tool_rows(tools.push(t), margin, width) == tool_rows(tools, margin, width) + (margin
            + text::left_aligned(t.name@, width) + " "@ + kind_name(t.kind) + "\n"@),
        agent_rows(agents.push(d), width) == agent_rows(agents, width) + ("  "@
            + text::left_aligned(d.name, width) + " "@ + d.description + "\n"@),
        tool_rows(Seq::empty(), margin, width).len() == 0,
        agent_rows(Seq::empty(), width).len() == 0,
{
    assert(tools.push(t).drop_last() =~= tools);
    assert(agents.push(d).drop_last() =~= agents);
}

/// A server is shown as disabled, or with the number of its tools, or as not
/// connected where it has none.
pub proof fn law_servers_have_a_state(
    servers: Seq<(String, McpServerConfig)>,
    server: (String, McpServerConfig),
    tools: Seq<Arc<ToolInfo>>,
)
    ensures
        ({
            let n = named_with(tools, "mcp__"@ + server.0@ + "__"@);
            let state = if server.1.disabled {
                "disabled"@
            } else if n == 0 {
                "not connected"@
            } else {
                text::decimal(n) + " tools"@
            };
            server_rows(servers.push(server), tools) == server_rows(servers, tools) + ("  "@
                + text::left_aligned(server.0@, 20) + " "@ + state + "\n"@)
        }),
{
    assert(servers.push(server).drop_last() =~= servers);
}

/// The tools of a server are those whose names begin with its own.
pub proof fn law_tools_are_counted_by_server(
    tools: Seq<Arc<ToolInfo>>,
    t: Arc<ToolInfo>,
    prefix: Seq<char>,
)
    ensures
        named_with(Seq::empty(), prefix) == 0,
        prefix.is_prefix_of(t.name@) ==> named_with(tools.push(t), prefix) == named_with(
            tools,
            prefix,
        ) + 1,
        !prefix.is_prefix_of(t.name@) ==> named_with(tools.push(t), prefix) == named_with(
            tools,
            prefix,
        ),
{
    assert(tools.push(t).drop_last() =~= tools);
    let n = prefix.len() as int;
    if prefix.is_prefix_of(t.name@) {
        assert(t.name@.subrange(0, n) =~= prefix);
    }
    if text::starts_with(t.name@, prefix) {
        assert(t.name@.subrange(0, n) == prefix);
    }
}

/// The cost of a session is told in four figures.
pub proof fn law_costs_are_told(usage: Usage, model: Seq<char>)
    ensures
        cost_text(usage, model) == "Session usage\n\n  input      "@ + text::right_aligned(
            text::decimal(usage.prompt_tokens as nat),
            9,
            ' ',
        ) + "\n  cached     "@ + text::right_aligned(text::decimal(cached(usage) as nat), 9, ' ')
            + "\n  output     "@ + text::right_aligned(
            text::decimal(usage.completion_tokens as nat),
            9,
            ' ',
        ) + "\n  total      "@ + text::right_aligned(
            text::decimal(usage.total_tokens as nat),
            9,
            ' ',
        ) + "\n\nModel: "@ + model,
{
}

/// Each stored session is listed on a line of its own.
pub proof fn law_sessions_have_a_line_each(list: Seq<SummaryView>, s: SummaryView)
    ensures
        session_rows(list.push(s)) == session_rows(list) + (text::left_aligned(
            text::fitting(s.id, 8),
            10,
        ) + "  "@ + text::left_aligned(text::decimal(s.message_count), 7) + "  "@
            + text::left_aligned(s.model, 26) + "  "@ + session_label(s) + "\n"@),
        s.title matches Some(t) ==> session_label(s) == t,
        s.title is None ==> session_label(s) == "session "@ + text::fitting(s.id, 8),
{
    assert(list.push(s).drop_last() =~= list);
}

/// The flags say where a session comes from: the one that is asked for, the latest,
/// or a new one.
pub proof fn law_flags_choose_the_session(
    resume: Option<Seq<char>>,
    continue_last: bool,
    has_store: bool,
    list: Seq<SummaryView>,
)
    ensures
        ({
            let r = session_start(resume, continue_last, has_store, list);
            &&& resume matches Some(id) ==> {
                &&& r is Ok <==> has_store && found_session(list, id) is Some
                &&& r matches Ok(s) ==> found_session(list, id) matches Some(f) && s
                    == StartView::Resume(f)
            }
            &&& resume is None && continue_last ==> {
                &&& r is Ok <==> has_store && list.len() > 0
                &&& r matches Ok(s) ==> s == StartView::Resume(list[0])
            }
            &&& resume is None && !continue_last ==> {
                &&& has_store ==> r is Ok && r->Ok_0 is Create
                &&& !has_store ==> r is Ok && r->Ok_0 is InMemory
            }
        }),
{
}

/// The flags say which mode a run has: the one that is named, else all approved
/// where that is asked for, else the one that is configured.
pub proof fn law_flags_choose_the_mode(mode: Option<Seq<char>>, yes: bool)
    ensures
        mode is None && yes ==> asked_mode(mode, yes) is Ok && asked_mode(mode, yes)->Ok_0 == Some(
            PermissionMode::BypassPermissions,
        ),
        mode is None && !yes ==> asked_mode(mode, yes) is Ok && asked_mode(mode, yes)->Ok_0 is None,
        mode matches Some(raw) ==> {
            &&& crate::config::mode_named(text::trimmed(raw)) matches Some(n) ==> (asked_mode(
                mode,
                yes,
            ) matches Ok(m) && m == Some(n))
            &&& crate::config::mode_named(text::trimmed(raw)) is None ==> asked_mode(mode, yes) is Err
        },
{
}

// ---------------------------------------------------------------------------
// The terminal
// ---------------------------------------------------------------------------

/// The wheel scrolls by three lines and a paste goes into the box.
pub proof fn law_terminals_are_heard(a: AppView, t: String, now: u64)
    ensures
        a.scroll >= 3 ==> after_report(a, Incoming::WheelUp, now).0.scroll == a.scroll - 3,
        a.scroll + 3 <= furthest(a) ==> after_report(a, Incoming::WheelDown, now).0.scroll
            == a.scroll + 3,
        after_report(a, Incoming::Paste(t), now).0.area == pasted(a.area, t@),
        after_report(a, Incoming::Paste(t), now).0.transcript == a.transcript,
{
}

/// The caret stands where typing lands, while nothing else has the keyboard.
pub proof fn law_the_caret_stands_where_typing_lands(app: App, area: Area)
    ensures
        app.busy || !(app.overlay is Closed) ==> caret_place(app, area) is None,
        caret_place(app, area) matches Some(p) ==> {
            &&& area.x < p.0 < area.x + area.width - 1
            &&& p.1 < area.y + area.height - 1
            &&& p.1 == area.y + 1 + app@.area.row - first_shown(app@.area.row)
            &&& p.0 == area.x + 1 + cell_width(line_at(app@.area).take(app@.area.col)) % 0x10000
        },
{
}

/// The palette stands right above the input box, as far as there is room.
pub proof fn law_the_palette_stands_above_the_input(full: Area, entries: nat)
    ensures
        ({
            let p = palette_place(full, entries);
            let h = palette_height(entries);
            &&& full.height > h + 5 ==> p.y + h + 4 == full.height
            &&& full.x < u16::MAX - 2 ==> p.x == full.x + 2
            &&& 4 < full.width <= 80 ==> p.width == full.width - 4
            &&& entries <= 12 ==> h == entries + 2
            &&& entries > 12 ==> h == 14
        }),
{
}

/// A resumed session shows its messages in their order.
pub proof fn law_sessions_are_replayed_in_order(a: AppView, messages: Seq<MessageView>, m: MessageView)
    ensures
        replayed_messages(a, messages.push(m)) == replayed_message(
            replayed_messages(a, messages),
            m,
        ),
        replayed_messages(a, Seq::empty()) == a,
{
    assert(messages.push(m).drop_last() =~= messages);
}

/// Where a resumed session shows something, a notice stands behind it, and the
/// view is at the end.
pub proof fn law_resumed_sessions_are_announced(
    a: AppView,
    id: Seq<char>,
    messages: Seq<MessageView>,
)
    ensures
        ({
            let b = replayed_messages(a, messages);
            let r = resumed(a, id, messages);
            &&& b.transcript.len() > 0 ==> r.transcript == b.transcript.push(
                ItemView::Notice(
                    "Resumed session "@ + text::fitting(id, 8) + " ("@ + text::decimal(
                        messages.len(),
                    ) + " messages)."@,
                    NoticeLevel::Info,
                ),
            )
            &&& b.transcript.len() == 0 ==> r.transcript.len() == 0
            &&& !r.scroll_locked
        }),
{
}

} // verus!
