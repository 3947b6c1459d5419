//! What becomes of a call, of the work that is handed on, and of a run.
use std::sync::Arc;
use vstd::prelude::*;
use crate::agent::calls::{
    answered, answers, call_summary, calls_of, gate, gate_after, grants_after, is_prepared, primary,
    visible, with_context, GateView, OpenCalls, PermissionResponse, PreparedCall, Refusal,
};
use crate::agent::flow::{passes, Action, Stage, Step};
use crate::agent::prompt::{
    agent_lines, context_lines, instruction_blocks, opening_sentence, tool_lines,
};
use crate::agent::task::{
    definition_from, final_answer, is_authorization, subagent_tools, Authorization,
};
use crate::agent::turn::{follows, TurnAction, TurnStage};
use crate::agent::AgentEvent;
use crate::api::types::{role_name, CallView, MessageView, Role};
use crate::config::PermissionMode;
use crate::headless::{exit_code, gathered, progress_text, RunView};
use crate::hooks::HookView;
use crate::json::{member, str_field, Json};
use crate::laws::text::{is_blank, law_blank_text_trims_to_nothing};
use crate::permissions::{is_chained, key_of, DecisionView, EngineView};
use crate::agent::subagent::{DefinitionView, SubagentDefinition};
use crate::text;
use crate::tools::{builtin_kinds, builtin_names, registered, tool_from, ToolInfo, ToolKind};

verus! {

// ---------------------------------------------------------------------------
// Arguments
// ---------------------------------------------------------------------------

/// A key of an object has the value that stands first under that name.
pub proof fn law_keys_have_their_values(members: Seq<(String, Json)>, key: Seq<char>, k: int)
    requires
        0 <= k < members.len(),
        members[k].0@ == key,
        forall|i: int| 0 <= i < k ==> (#[trigger] members[i]).0@ != key,
    ensures
        member(members, key) == Some(members[k].1),
    decreases k,
{
    if k > 0 {
        let rest = members.skip(1);
        assert forall|i: int| 0 <= i < k - 1 implies (#[trigger] rest[i]).0@ != key by {
            assert(rest[i] == members[i + 1]);
        }
        assert(members[0].0@ != key);
        law_keys_have_their_values(rest, key, k - 1);
    }
}

/// A key that no member has is not there.
pub proof fn law_other_keys_are_not_there(members: Seq<(String, Json)>, key: Seq<char>)
    requires
        forall|i: int| 0 <= i < members.len() ==> (#[trigger] members[i]).0@ != key,
    ensures
        member(members, key) is None,
    decreases members.len(),
{
    if members.len() > 0 {
        let rest = members.skip(1);
        assert forall|i: int| 0 <= i < rest.len() implies (#[trigger] rest[i]).0@ != key by {
            assert(rest[i] == members[i + 1]);
        }
        assert(members[0].0@ != key);
        law_other_keys_are_not_there(rest, key);
    }
}

/// The names under which a call says what it is about, the most telling first.
pub open spec fn telling_names() -> Seq<Seq<char>> {
    seq!["command"@, "path"@, "pattern"@, "url"@, "file_path"@, "id"@]
}

/// A call is about the first of its telling arguments.
pub proof fn law_calls_are_about_their_first_argument(args: Json, k: int)
    requires
        0 <= k < 6,
        str_field(args, telling_names()[k]) is Some,
        forall|i: int| 0 <= i < k ==> str_field(args, #[trigger] telling_names()[i]) is None,
    ensures
        primary(args) == str_field(args, telling_names()[k])->0,
{
    let names = telling_names();
    assert(names[0] == "command"@ && names[1] == "path"@ && names[2] == "pattern"@);
    assert(names[3] == "url"@ && names[4] == "file_path"@ && names[5] == "id"@);
}

/// A call without any of them is about nothing.
pub proof fn law_calls_can_be_about_nothing(args: Json)
    requires
        forall|i: int| 0 <= i < 6 ==> str_field(args, #[trigger] telling_names()[i]) is None,
    ensures
        primary(args).len() == 0,
{
    let names = telling_names();
    assert(names[0] == "command"@ && names[1] == "path"@ && names[2] == "pattern"@);
    assert(names[3] == "url"@ && names[4] == "file_path"@ && names[5] == "id"@);
}

/// A call of a tool that is not there is refused; so is one with arguments that
/// cannot be read. Any other is put together from the call and the tool.
pub proof fn law_calls_are_prepared(
    tools: Seq<Arc<ToolInfo>>,
    mode: PermissionMode,
    call: CallView,
    parsed: Result<Json, Seq<char>>,
    r: Result<PreparedCall, Refusal>,
)
    requires
        is_prepared(tools, mode, call, parsed, r),
    ensures
        r is Ok <==> parsed is Ok && exists|i: int|
            0 <= i < tools.len() && (#[trigger] tools[i]).name@ == call.name,
        r matches Err(f) ==> f@.id == call.id && f@.name == call.name,
        r matches Ok(p) ==> {
            &&& p.id@ == call.id
            &&& p.name@ == call.name
            &&& *p.args == parsed->Ok_0
            &&& p.argument@ == primary(parsed->Ok_0)
            &&& exists|i: int|
                0 <= i < tools.len() && (#[trigger] tools[i]).name@ == call.name && tools[i].kind
                    == p.kind
        },
{
    lemma_tool_from(tools, call.name, 0);
}

proof fn lemma_tool_from(tools: Seq<Arc<ToolInfo>>, name: Seq<char>, from: int)
    requires
        0 <= from,
    ensures
        tool_from(tools, name, from) matches Some(i) ==> from <= i < tools.len() && tools[i].name@
            == name,
        tool_from(tools, name, from) is None ==> forall|i: int|
            from <= i < tools.len() ==> (#[trigger] tools[i]).name@ != name,
    decreases tools.len() - from,
{
    if from < tools.len() && tools[from].name@ != name {
        lemma_tool_from(tools, name, from + 1);
    }
}

/// The line about a call names the tool and what the call is about.
pub proof fn law_calls_are_told(args: Json, about: Seq<char>)
    ensures
        str_field(args, "path"@) == Some(about) ==> {
            &&& call_summary("read_file"@, args) == "Read("@ + about + ")"@
            &&& call_summary("write_file"@, args) == "Write("@ + about + ")"@
            &&& call_summary("edit_file"@, args) == "Edit("@ + about + ")"@
            &&& call_summary("list_files"@, args) == "List("@ + about + ")"@
        },
        str_field(args, "pattern"@) == Some(about) ==> {
            &&& call_summary("glob"@, args) == "Glob("@ + about + ")"@
            &&& call_summary("grep"@, args) == "Grep("@ + about + ")"@
        },
        str_field(args, "command"@) == Some(about) ==> call_summary("bash"@, args) == "Bash("@
            + about + ")"@,
        str_field(args, "url"@) == Some(about) ==> call_summary("web_fetch"@, args) == "WebFetch("@
            + about + ")"@,
{
    reveal_strlit("read_file");
    reveal_strlit("write_file");
    reveal_strlit("edit_file");
    reveal_strlit("list_files");
    reveal_strlit("glob");
    reveal_strlit("grep");
    reveal_strlit("bash");
    reveal_strlit("bash_output");
    reveal_strlit("kill_shell");
    reveal_strlit("todo_write");
    reveal_strlit("web_fetch");
    reveal_strlit("Read");
    reveal_strlit("Write");
    reveal_strlit("Edit");
    reveal_strlit("List");
    reveal_strlit("Glob");
    reveal_strlit("Grep");
    reveal_strlit("Bash");
    reveal_strlit("WebFetch");
    reveal_strlit("(");
    reveal_strlit("Read(");
    reveal_strlit("Write(");
    reveal_strlit("Edit(");
    reveal_strlit("List(");
    reveal_strlit("Glob(");
    reveal_strlit("Grep(");
    reveal_strlit("Bash(");
    reveal_strlit("WebFetch(");
    assert("read_file"@[0] == 'r' && "write_file"@[0] == 'w' && "edit_file"@[0] == 'e');
    assert("list_files"@[0] == 'l' && "glob"@[1] == 'l' && "grep"@[1] == 'r');
    assert("bash"@.len() == 4 && "bash_output"@.len() == 11 && "web_fetch"@[1] == 'e');
    assert("glob"@[0] == 'g' && "grep"@[0] == 'g' && "bash"@[0] == 'b');
    assert("write_file"@[1] == 'r' && "kill_shell"@[0] == 'k' && "todo_write"@[0] == 't');
    assert("web_fetch"@[0] == 'w');
    assert("Read"@ + "("@ =~= "Read("@);
    assert("Write"@ + "("@ =~= "Write("@);
    assert("Edit"@ + "("@ =~= "Edit("@);
    assert("List"@ + "("@ =~= "List("@);
    assert("Glob"@ + "("@ =~= "Glob("@);
    assert("Grep"@ + "("@ =~= "Grep("@);
    assert("Bash"@ + "("@ =~= "Bash("@);
    assert("WebFetch"@ + "("@ =~= "WebFetch("@);
}

// ---------------------------------------------------------------------------
// Decisions
// ---------------------------------------------------------------------------

/// A call runs where no hook vetoes it and either the rules allow it, or they
/// leave it to the user and a hook has approved it. It is asked about where the
/// rules leave it to the user and no hook has spoken. Otherwise it is refused.
pub proof fn law_what_runs(hook: HookView, decision: DecisionView)
    ensures
        gate(hook, decision) is Run <==> !(hook is Deny) && (decision is Allow || (decision is Ask
            && hook is Allow)),
        gate(hook, decision) is Ask <==> decision is Ask && hook is Proceed,
        gate(hook, decision) is Refused <==> hook is Deny || decision is Deny,
{
}

/// A refusal says why.
pub proof fn law_refusals_say_why(hook: HookView, decision: DecisionView, why: Seq<char>)
    ensures
        hook == HookView::Deny(why) ==> gate(hook, decision) == GateView::Refused(
            why,
            "Tool call blocked: "@ + why,
        ),
        !(hook is Deny) && decision == DecisionView::Deny(why) ==> gate(hook, decision)
            == GateView::Refused(why, "Tool call refused: "@ + why),
{
}

/// What the user answers is what happens.
pub proof fn law_the_user_decides()
    ensures
        gate_after(PermissionResponse::Once) is Run,
        gate_after(PermissionResponse::Always) is Run,
        gate_after(PermissionResponse::Reject) is Refused,
{
}

/// Only where the user says to stop asking is anything granted: one key, that of
/// the call, and none for several commands in one line.
pub proof fn law_what_is_granted(before: EngineView, name: Seq<char>, argument: Seq<char>)
    ensures
        grants_after(before, name, argument, PermissionResponse::Once) == before.grants,
        grants_after(before, name, argument, PermissionResponse::Reject) == before.grants,
        ({
            let after = grants_after(before, name, argument, PermissionResponse::Always);
            &&& forall|k: Seq<char>| #[trigger]
                after.contains(k) ==> before.grants.contains(k) || (k == key_of(name, argument)
                    && !is_chained(name, argument))
            &&& forall|k: Seq<char>|
                before.grants.contains(k) ==> #[trigger] after.contains(k)
            &&& !is_chained(name, argument) ==> after.contains(key_of(name, argument))
        }),
{
    let after = grants_after(before, name, argument, PermissionResponse::Always);
    let key = key_of(name, argument);
    assert forall|k: Seq<char>| #[trigger] after.contains(k) implies before.grants.contains(k) || (k
        == key && !is_chained(name, argument)) by {
        let i = choose|i: int| 0 <= i < after.len() && after[i] == k;
        if i < before.grants.len() {
            assert(before.grants[i] == k);
        }
    }
    assert forall|k: Seq<char>| before.grants.contains(k) implies #[trigger] after.contains(k) by {
        let i = choose|i: int| 0 <= i < before.grants.len() && before.grants[i] == k;
        assert(after[i] == k);
    }
    if !is_chained(name, argument) && !before.grants.contains(key) {
        assert(after[before.grants.len() as int] == key);
    }
}

/// In plan mode the model sees the tools that change nothing, in the other modes
/// all of them.
pub proof fn law_plans_see_no_changing_tools(
    tools: Seq<Arc<ToolInfo>>,
    mode: PermissionMode,
    t: Arc<ToolInfo>,
)
    ensures
        mode != PermissionMode::Plan ==> visible(tools, mode) == tools,
        mode == PermissionMode::Plan ==> (visible(tools, mode).contains(t) <==> tools.contains(t)
            && t.kind != ToolKind::Edit && t.kind != ToolKind::Execute),
{
    let keep = |t: Arc<ToolInfo>| !crate::tools::kind_mutates(t.kind);
    lemma_filtered(tools, keep, t);
}

/// What hooks say follows the text, and where they say nothing it stays as it is.
pub proof fn law_hooks_add_to_the_text(s: Seq<char>, context: Seq<Seq<char>>, why: Seq<char>)
    ensures
        context.len() == 0 ==> with_context(s, HookView::Proceed(context)) == s,
        context.len() > 0 ==> with_context(s, HookView::Proceed(context)) == s
            + "\n\n<hook-context>\n"@ + text::joined(context, seq!['\n']) + "\n</hook-context>"@,
        with_context(s, HookView::Allow(why)) == s,
        with_context(s, HookView::Deny(why)) == s,
{
    reveal_strlit("\n");
    assert("\n"@ =~= seq!['\n']);
}

/// Where every call is answered, the answers stand right behind the message with
/// the calls, each with the id of its call.
pub proof fn law_answers_follow_their_calls(messages: Seq<MessageView>, i: int, k: int)
    requires
        answered(messages),
        0 <= i < messages.len(),
        messages[i].role != role_name(Role::Tool),
        0 <= k < calls_of(messages[i]).len(),
    ensures
        i + 1 + k < messages.len(),
        messages[i + 1 + k].role == role_name(Role::Tool),
        messages[i + 1 + k].tool_call_id == Some(calls_of(messages[i])[k].id),
    decreases messages.len(),
{
    let n = calls_of(messages[0]).len() as int;
    if i == 0 {
        assert(answers(messages[1 + k], calls_of(messages[0])[k]));
    } else if i <= n {
        assert(answers(messages[1 + (i - 1)], calls_of(messages[0])[i - 1]));
    } else {
        let rest = messages.skip(1 + n);
        assert(rest[i - 1 - n] == messages[i]);
        law_answers_follow_their_calls(rest, i - 1 - n, k);
        assert(rest[i - 1 - n + 1 + k] == messages[i + 1 + k]);
    }
}

// ---------------------------------------------------------------------------
// Work that is handed on
// ---------------------------------------------------------------------------

/// A subagent has each tool of its parent that its definition names, or all where
/// it names none, but never the one that starts subagents.
pub proof fn law_subagents_have_their_tools(
    parent: Seq<Arc<ToolInfo>>,
    allowed: Option<Seq<Seq<char>>>,
    t: Arc<ToolInfo>,
)
    ensures
        subagent_tools(parent, allowed).contains(t) <==> parent.contains(t) && t.name@ != "task"@
            && (allowed is None || allowed->0.contains(t.name@)),
{
    let not_task = |t: Arc<ToolInfo>| t.name@ != "task"@;
    let granted = match allowed {
        Some(names) => parent.filter(|t: Arc<ToolInfo>| names.contains(t.name@)),
        None => parent,
    };
    lemma_filtered(granted, not_task, t);
    if let Some(names) = allowed {
        lemma_filtered(parent, |t: Arc<ToolInfo>| names.contains(t.name@), t);
    }
}

proof fn lemma_filtered(tools: Seq<Arc<ToolInfo>>, keep: spec_fn(Arc<ToolInfo>) -> bool, t: Arc<ToolInfo>)
    ensures
        tools.filter(keep).contains(t) <==> tools.contains(t) && keep(t),
{
    tools.filter_lemma(keep);
    if tools.contains(t) && keep(t) {
        let i = choose|i: int| 0 <= i < tools.len() && tools[i] == t;
        assert(tools.filter(keep).contains(tools[i]));
    }
    if tools.filter(keep).contains(t) {
        tools.lemma_filter_contains_rev(keep, t);
        let i = choose|i: int| 0 <= i < tools.filter(keep).len() && tools.filter(keep)[i] == t;
        assert(keep(tools.filter(keep)[i]));
    }
}

/// A subagent is found by its name, the first of that name where there are several.
pub proof fn law_subagents_go_by_name(
    definitions: Seq<SubagentDefinition>,
    name: Seq<char>,
    from: int,
)
    requires
        0 <= from,
    ensures
        definition_from(definitions, name, from) matches Some(i) ==> {
            &&& from <= i < definitions.len()
            &&& definitions[i].name@ == name
            &&& forall|k: int| from <= k < i ==> (#[trigger] definitions[k]).name@ != name
        },
        definition_from(definitions, name, from) is None ==> forall|k: int|
            from <= k < definitions.len() ==> (#[trigger] definitions[k]).name@ != name,
    decreases definitions.len() - from,
{
    if from < definitions.len() && definitions[from].name@ != name {
        law_subagents_go_by_name(definitions, name, from + 1);
    }
}

/// A call of a subagent runs where the rules allow it, is asked about where they
/// leave it to a user who can be asked, and is refused otherwise.
pub proof fn law_delegated_calls_are_decided(
    r: Authorization,
    decision: DecisionView,
    can_ask: bool,
    agent: Seq<char>,
    p: PreparedCall,
)
    requires
        is_authorization(r, decision, can_ask, agent, p),
    ensures
        r is Allowed <==> decision is Allow,
        r is Ask <==> decision is Ask && can_ask,
        r is Refused <==> decision is Deny || (decision is Ask && !can_ask),
        r matches Authorization::Ask(q) ==> q.tool_name@ == p.name@ && q.argument@ == p.argument@,
{
}

/// What a subagent says is what its parent gets, where it says something.
pub proof fn law_subagents_answer(agent: Seq<char>, content: Seq<char>)
    ensures
        !is_blank(content) ==> final_answer(agent, Some(content)) == content,
        is_blank(content) ==> final_answer(agent, Some(content)) == final_answer(agent, None),
{
    law_blank_text_trims_to_nothing(content);
}

// ---------------------------------------------------------------------------
// Runs without a screen
// ---------------------------------------------------------------------------

/// A run that ends well exits with 0, unless it said nothing and was refused
/// something. Each way to end badly has a code of its own.
pub proof fn law_runs_exit_with_a_code(run: RunView)
    ensures
        run.stop is Complete && !is_blank(run.answer) ==> exit_code(run) == 0,
        run.stop is Complete && run.blocked.len() == 0 ==> exit_code(run) == 0,
        run.stop is Complete && is_blank(run.answer) && run.blocked.len() > 0 ==> exit_code(run)
            == 3,
        run.stop is Error ==> exit_code(run) == 1,
        run.stop is ToolLimitReached ==> exit_code(run) == 2,
        run.stop is Interrupted ==> exit_code(run) == 130,
{
    law_blank_text_trims_to_nothing(run.answer);
}

/// Words are appended to the answer, a refusal to the list of refusals, and the
/// end of the turn says how the run ends.
pub proof fn law_runs_gather_what_happens(run: RunView, event: AgentEvent)
    ensures
        ({
            let r = gathered(run, event);
            &&& event matches AgentEvent::Text(words) ==> r.answer == run.answer + words@
            &&& !(event is Text) ==> r.answer == run.answer
            &&& event matches AgentEvent::ToolDenied { name, reason, .. } ==> r.blocked
                == run.blocked.push(name@ + ": "@ + reason@)
            &&& !(event is ToolDenied) ==> r.blocked == run.blocked
            &&& event matches AgentEvent::TurnComplete { stop_reason } ==> r.stop == stop_reason@
            &&& !(event is TurnComplete) ==> r.stop == run.stop
        }),
{
}

/// Tools are told of as they start, and as they end where there is something to
/// say or they failed.
pub proof fn law_tools_are_told_of(event: AgentEvent)
    ensures
        event matches AgentEvent::ToolStarted { summary, .. } ==> progress_text(event) == Some(
            "· "@ + summary@,
        ),
        event matches AgentEvent::ToolFinished { is_error, outcome_summary, .. } ==> (progress_text(
            event,
        ) is Some <==> is_error || outcome_summary is Some),
        event matches AgentEvent::ToolDenied { name, reason, .. } ==> progress_text(event) == Some(
            "  "@ + name@ + " refused: "@ + reason@,
        ),
        event is Text ==> progress_text(event) is None,
{
}

// ---------------------------------------------------------------------------
// The prompt
// ---------------------------------------------------------------------------

/// The opening of a description goes up to the first full stop that a space
/// follows.
pub proof fn law_descriptions_open_with_a_sentence(a: Seq<char>, b: Seq<char>)
    requires
        !text::contains(a.push('.'), ". "@),
    ensures
        opening_sentence(a + ". "@ + b) == a.push('.'),
        opening_sentence(a) == a,
{
    reveal_strlit(". ");
    let s = a + ". "@ + b;
    let n = a.len() as int;
    let dot = a.push('.');
    assert(s.subrange(n, n + 2) =~= ". "@);
    assert(text::occurs_at(s, ". "@, n));
    text::lemma_found_from(s, ". "@, 0);
    text::lemma_found_from(a, ". "@, 0);
    if let Some(i) = text::found(s, ". "@) {
        assert(text::occurs_at(s, ". "@, i));
        if i < n {
            assert(dot.subrange(i, i + 2) =~= s.subrange(i, i + 2));
            assert(text::occurs_at(dot, ". "@, i));
        }
        assert(i == n);
        assert(s.take(n + 1) =~= dot);
    }
    if let Some(i) = text::found(a, ". "@) {
        assert(text::occurs_at(a, ". "@, i));
        assert(dot.subrange(i, i + 2) =~= a.subrange(i, i + 2));
        assert(text::occurs_at(dot, ". "@, i));
    }
}

/// Each tool, subagent, file of instructions and word of a hook is told in its
/// turn, and nothing else.
pub proof fn law_prompts_tell_everything(
    tools: Seq<Arc<ToolInfo>>,
    t: Arc<ToolInfo>,
    agents: Seq<DefinitionView>,
    d: DefinitionView,
    files: Seq<(Seq<char>, Seq<char>)>,
    f: (Seq<char>, Seq<char>),
    words: Seq<Seq<char>>,
    w: Seq<char>,
)
    ensures
        tool_lines(tools.push(t)) == tool_lines(tools) + "- `"@ + t.name@ + "` — "@
            + opening_sentence(t.description@) + "\n"@,
        agent_lines(agents.push(d)) == agent_lines(agents) + "- `"@ + d.name + "` — "@
            + d.description + "\n"@,
        instruction_blocks(files.push(f)) == instruction_blocks(files) + "\n<instructions from=\""@
            + f.0 + "\">\n"@ + text::trimmed(f.1) + "\n</instructions>\n"@,
        context_lines(words.push(w)) == context_lines(words) + text::trimmed(w) + "\n"@,
        tool_lines(Seq::empty()).len() == 0,
        agent_lines(Seq::empty()).len() == 0,
        instruction_blocks(Seq::empty()).len() == 0,
        context_lines(Seq::empty()).len() == 0,
{
    assert(tools.push(t).drop_last() =~= tools);
    assert(agents.push(d).drop_last() =~= agents);
    assert(files.push(f).drop_last() =~= files);
    assert(words.push(w).drop_last() =~= words);
}

// ---------------------------------------------------------------------------
// The built-in tools
// ---------------------------------------------------------------------------

/// Reading and searching change nothing, writing and editing change files, and
/// commands can do anything.
pub proof fn law_tools_have_their_kind(i: int)
    requires
        0 <= i < 11,
    ensures
        builtin_names().len() == 11,
        builtin_kinds().len() == 11,
        ({
            let name = builtin_names()[i];
            let kind = builtin_kinds()[i];
            &&& kind == ToolKind::Edit <==> name == "write_file"@ || name == "edit_file"@
            &&& kind == ToolKind::Execute <==> name == "bash"@ || name == "kill_shell"@
            &&& kind == ToolKind::Network <==> name == "web_fetch"@
            &&& kind == ToolKind::Meta <==> name == "todo_write"@
        }),
{
    crate::tools::law_builtin_names_are_unique();
    let names = builtin_names();
    assert(names[0] == "read_file"@ && names[1] == "write_file"@ && names[2] == "edit_file"@);
    assert(names[3] == "list_files"@ && names[4] == "glob"@ && names[5] == "grep"@);
    assert(names[6] == "bash"@ && names[7] == "bash_output"@ && names[8] == "kill_shell"@);
    assert(names[9] == "todo_write"@ && names[10] == "web_fetch"@);
}

/// A tool takes the place of one with its name, or comes last.
pub proof fn law_tools_are_registered(tools: Seq<Arc<ToolInfo>>, tool: Arc<ToolInfo>)
    ensures
        ({
            let r = registered(tools, tool);
            &&& r.contains(tool)
            &&& (forall|i: int| 0 <= i < tools.len() ==> (#[trigger] tools[i]).name@ != tool.name@)
                ==> r == tools.push(tool)
            &&& (exists|i: int| 0 <= i < tools.len() && (#[trigger] tools[i]).name@ == tool.name@)
                ==> r.len() == tools.len()
            &&& forall|i: int|
                0 <= i < tools.len() && (#[trigger] tools[i]).name@ != tool.name@ ==> r[i]
                    == tools[i]
        }),
{
    lemma_tool_from(tools, tool.name@, 0);
    let r = registered(tools, tool);
    match tool_from(tools, tool.name@, 0) {
        Some(i) => {
            assert(r[i] == tool);
        },
        None => {
            assert(r[tools.len() as int] == tool);
        },
    }
}

// ---------------------------------------------------------------------------
// Steps of a call
// ---------------------------------------------------------------------------

/// A call that may run is told of and run, one that is refused is told of and
/// answered with the reason, and one that is asked about waits.
pub proof fn law_steps_follow_the_decision(
    g: GateView,
    p: PreparedCall,
    told: Seq<AgentEvent>,
    step: Step,
    stage: Stage,
)
    requires
        passes(g, p, told, step, stage),
    ensures
        step.action is RunTool <==> g is Run,
        step.action is AskUser <==> g is Ask,
        step.action is Answer <==> g is Refused,
        g matches GateView::Refused(why, content) ==> {
            &&& step.action matches Action::Answer(s)
            &&& s@ == content
            &&& step.events@.last() matches AgentEvent::ToolDenied { id, name, reason }
            &&& id@ == p.id@
            &&& name@ == p.name@
            &&& reason@ == why
        },
        g is Run ==> {
            &&& step.events@.last() matches AgentEvent::ToolStarted { id, name, summary }
            &&& id@ == p.id@
            &&& name@ == p.name@
            &&& summary@ == p.summary@
        },
        told.is_prefix_of(step.events@),
{
    if !(g is Ask) {
        assert(step.events@.take(told.len() as int) == told);
        assert forall|i: int| 0 <= i < told.len() implies told[i] == step.events@[i] by {
            assert(step.events@.take(told.len() as int)[i] == step.events@[i]);
        }
    }
}

/// The calls of a message are taken in their order, and none is run behind an
/// interrupt.
pub proof fn law_calls_are_taken_in_turn(action: TurnAction, stage: TurnStage, open: OpenCalls)
    requires
        follows(action, stage, open),
    ensures
        action is Execute <==> !open.interrupted && open.done < open.calls@.len(),
        action matches TurnAction::Execute(c) ==> c@ == open.calls@[open.done as int]@,
        open.done >= open.calls@.len() && !open.interrupted ==> action is GoOn,
        open.done >= open.calls@.len() && open.interrupted ==> action is Stop,
{
}

} // verus!
