//! One tool call: whether it runs, what the model is told of it, and the
//! promise that every call is answered.
use std::sync::Arc;
use vstd::prelude::*;
use vstd::string::StringExecFns;
use crate::api::types::{
    call_views, clone_calls, law_role_names_distinct, role_name, text_message, tool_message,
    CallView, Message, MessageView, Role, ToolCall,
};
use crate::config::PermissionMode;
use crate::hooks::{HookDecision, HookView};
use crate::json::{parsed_json, str_field, Json};
use crate::permissions::{decided, Decision, DecisionView, EngineView, PermissionEngine};
use crate::session::{has_role, system_only};
use crate::text;
use crate::tools::fs::{EditFile, ListFiles, ReadFile, WriteFile};
use crate::tools::misc::{todo_items, TodoWrite, WebFetch};
use crate::tools::schema::text_or;
use crate::tools::search::{Glob, Grep};
use crate::tools::shell::{Bash, BashOutput, KillShell};
use crate::tools::{
    kind_mutates, tool_from, tool_names, ToolInfo, ToolKind, ToolOutcome, ToolRegistry,
};
use crate::tools::fs::call_text;
use crate::util;

verus! {

// ---------------------------------------------------------------------------
// What a call is about
// ---------------------------------------------------------------------------

/// The argument a permission decision is really about.
pub open spec fn primary(args: Json) -> Seq<char> {
    match str_field(args, "command"@) {
        Some(s) => s,
        None => match str_field(args, "path"@) {
            Some(s) => s,
            None => match str_field(args, "pattern"@) {
                Some(s) => s,
                None => match str_field(args, "url"@) {
                    Some(s) => s,
                    None => match str_field(args, "file_path"@) {
                        Some(s) => s,
                        None => match str_field(args, "id"@) {
                            Some(s) => s,
                            None => Seq::empty(),
                        },
                    },
                },
            },
        },
    }
}

/// The argument a permission decision is really about.
///
/// Rules are written against the thing that matters — the command for `bash`,
/// the path for a file tool — not against the whole JSON value.
pub fn primary_argument(args: &Json) -> (r: String)
    ensures
        r@ == primary(*args),
{
    match args.get_str("command") {
        Some(s) => {
            return s;
        },
        None => {},
    }
    match args.get_str("path") {
        Some(s) => {
            return s;
        },
        None => {},
    }
    match args.get_str("pattern") {
        Some(s) => {
            return s;
        },
        None => {},
    }
    match args.get_str("url") {
        Some(s) => {
            return s;
        },
        None => {},
    }
    match args.get_str("file_path") {
        Some(s) => {
            return s;
        },
        None => {},
    }
    match args.get_str("id") {
        Some(s) => s,
        None => {
            let s = String::new();
            assert(s@ =~= Seq::<char>::empty());
            s
        },
    }
}

/// One line about a call of the `task` tool.
pub open spec fn task_summary(args: Json) -> Seq<char> {
    "Task("@ + text_or(args, "agent"@, "?"@) + ": "@ + util::truncated(
        text_or(args, "prompt"@, ""@),
        60,
    ) + ")"@
}

/// One line about a call of the `task` tool.
pub fn summarize_task(args: &Json) -> (r: String)
    ensures
        r@ == task_summary(*args),
{
    let mut s = "Task(".to_owned();
    s.append(&crate::tools::schema::arg_str_or(args, "agent", "?"));
    s.append(": ");
    s.append(
        &util::truncate_text(&crate::tools::schema::arg_str_or(args, "prompt", ""), 60),
    );
    s.append(")");
    s
}

/// One line about a call, for the transcript and the permission prompt.
pub open spec fn call_summary(name: Seq<char>, args: Json) -> Seq<char> {
    if name == "read_file"@ {
        call_text("Read"@, text_or(args, "path"@, ""@))
    } else if name == "write_file"@ {
        call_text("Write"@, text_or(args, "path"@, ""@))
    } else if name == "edit_file"@ {
        call_text("Edit"@, text_or(args, "path"@, ""@))
    } else if name == "list_files"@ {
        call_text("List"@, text_or(args, "path"@, "."@))
    } else if name == "glob"@ {
        call_text("Glob"@, text_or(args, "pattern"@, ""@))
    } else if name == "grep"@ {
        call_text("Grep"@, text_or(args, "pattern"@, ""@))
    } else if name == "bash"@ {
        call_text("Bash"@, text_or(args, "command"@, ""@))
    } else if name == "bash_output"@ {
        call_text("BashOutput"@, text_or(args, "id"@, ""@))
    } else if name == "kill_shell"@ {
        call_text("KillShell"@, text_or(args, "id"@, ""@))
    } else if name == "todo_write"@ {
        "TodoWrite("@ + text::decimal(
            match todo_items(args) {
                Some(items) => items.len(),
                None => 0,
            },
        ) + " tasks)"@
    } else if name == "web_fetch"@ {
        call_text("WebFetch"@, text_or(args, "url"@, ""@))
    } else if name == "task"@ {
        task_summary(args)
    } else {
        crate::mcp::borrowed_summary(name, args)
    }
}

/// One line about a call. Must never execute anything.
pub fn summarize(name: &str, args: &Json) -> (r: String)
    ensures
        r@ == call_summary(name@, *args),
{
    if text::same(name, "read_file") {
        ReadFile.summarize(args)
    } else if text::same(name, "write_file") {
        WriteFile.summarize(args)
    } else if text::same(name, "edit_file") {
        EditFile.summarize(args)
    } else if text::same(name, "list_files") {
        ListFiles.summarize(args)
    } else if text::same(name, "glob") {
        Glob.summarize(args)
    } else if text::same(name, "grep") {
        Grep.summarize(args)
    } else if text::same(name, "bash") {
        Bash.summarize(args)
    } else if text::same(name, "bash_output") {
        BashOutput.summarize(args)
    } else if text::same(name, "kill_shell") {
        KillShell.summarize(args)
    } else if text::same(name, "todo_write") {
        TodoWrite.summarize(args)
    } else if text::same(name, "web_fetch") {
        WebFetch.summarize(args)
    } else if text::same(name, "task") {
        summarize_task(args)
    } else {
        crate::mcp::summarize(name, args)
    }
}

// ---------------------------------------------------------------------------
// Preparing a call
// ---------------------------------------------------------------------------

/// A call whose tool exists and whose arguments were read.
#[derive(Debug)]
pub struct PreparedCall {
    pub id: String,
    pub name: String,
    pub args: Arc<Json>,
    pub summary: String,
    /// What permission rules are written against.
    pub argument: String,
    pub kind: ToolKind,
}

/// A call that does not run.
#[derive(Debug)]
pub struct Refusal {
    pub id: String,
    pub name: String,
    /// Why, as the user is told.
    pub reason: String,
    /// What the model gets as the result of the call.
    pub content: String,
}

/// A refusal, as text: the id, the name, the reason and the content.
pub struct RefusalView {
    pub id: Seq<char>,
    pub name: Seq<char>,
    pub reason: Seq<char>,
    pub content: Seq<char>,
}

impl View for Refusal {
    type V = RefusalView;

    open spec fn view(&self) -> RefusalView {
        RefusalView {
            id: self.id@,
            name: self.name@,
            reason: self.reason@,
            content: self.content@,
        }
    }
}

/// The tools that the model may see in a mode. Plan mode hides those that
/// mutate rather than advertising them and refusing every call.
pub open spec fn visible(tools: Seq<Arc<ToolInfo>>, mode: PermissionMode) -> Seq<Arc<ToolInfo>> {
    if mode == PermissionMode::Plan {
        tools.filter(|t: Arc<ToolInfo>| !kind_mutates(t.kind))
    } else {
        tools
    }
}

/// Which tools are visible to the model in a mode.
pub fn visible_tools(tools: &ToolRegistry, mode: PermissionMode) -> (r: ToolRegistry)
    requires
        tools.wf(),
    ensures
        r.wf(),
        r.tools@ == visible(tools.tools@, mode),
{
    if mode == PermissionMode::Plan {
        tools.read_only()
    } else {
        tools.clone()
    }
}

/// What is said of a tool that does not exist. Naming the alternatives turns a
/// dead end into a recoverable one.
pub open spec fn unknown_tool(name: Seq<char>, names: Seq<Seq<char>>) -> Seq<char> {
    "unknown tool `"@ + name + "`. Available tools: "@ + text::joined(names, ", "@)
}

/// What is said of arguments that are no JSON. Echoing them helps the model fix
/// them.
pub open spec fn bad_arguments(name: Seq<char>, error: Seq<char>, raw: Seq<char>) -> Seq<char> {
    "could not parse arguments for `"@ + name + "` as JSON: "@ + error
        + ". Arguments received: "@ + util::truncated(raw, 400)
}

/// Whether `r` is what is made of a call, given what the parser makes of its
/// arguments.
pub open spec fn is_prepared(
    tools: Seq<Arc<ToolInfo>>,
    mode: PermissionMode,
    call: CallView,
    parsed: Result<Json, Seq<char>>,
    r: Result<PreparedCall, Refusal>,
) -> bool {
    match tool_from(tools, call.name, 0) {
        None => {
            let reason = unknown_tool(call.name, tool_names(visible(tools, mode)));
            r matches Err(f) && f@ == (RefusalView {
                id: call.id,
                name: call.name,
                reason,
                content: reason,
            })
        },
        Some(i) => match parsed {
            Err(e) => {
                let reason = bad_arguments(call.name, e, call.arguments);
                r matches Err(f) && f@ == (RefusalView {
                    id: call.id,
                    name: call.name,
                    reason,
                    content: reason,
                })
            },
            Ok(args) => {
                &&& r matches Ok(p)
                &&& p.id@ == call.id
                &&& p.name@ == call.name
                &&& *p.args == args
                &&& p.summary@ == call_summary(call.name, args)
                &&& p.argument@ == primary(args)
                &&& p.kind == tools[i].kind
            },
        },
    }
}

pub open spec fn result_text(r: Result<Json, String>) -> Result<Json, Seq<char>> {
    match r {
        Ok(j) => Ok(j),
        Err(e) => Err(e@),
    }
}

/// Prepares a call, given what the parser makes of its arguments.
pub fn prepare_parsed(
    tools: &ToolRegistry,
    mode: PermissionMode,
    call: &ToolCall,
    parsed: Result<Json, String>,
) -> (r: Result<PreparedCall, Refusal>)
    requires
        tools.wf(),
    ensures
        is_prepared(tools.tools@, mode, call@, result_text(parsed), r),
{
    let tool = match tools.get(&call.function.name) {
        Some(t) => t,
        None => {
            let mut reason = "unknown tool `".to_owned();
            reason.append(&call.function.name);
            reason.append("`. Available tools: ");
            reason.append(&text::join(&visible_tools(tools, mode).names(), ", "));
            let content = reason.clone();
            return Err(
                Refusal {
                    id: call.id.clone(),
                    name: call.function.name.clone(),
                    reason,
                    content,
                },
            );
        },
    };
    let args = match parsed {
        Ok(j) => j,
        Err(e) => {
            let mut reason = "could not parse arguments for `".to_owned();
            reason.append(&call.function.name);
            reason.append("` as JSON: ");
            reason.append(&e);
            reason.append(". Arguments received: ");
            reason.append(&util::truncate_text(&call.function.arguments, 400));
            let content = reason.clone();
            return Err(
                Refusal {
                    id: call.id.clone(),
                    name: call.function.name.clone(),
                    reason,
                    content,
                },
            );
        },
    };
    let summary = summarize(&call.function.name, &args);
    let argument = primary_argument(&args);
    Ok(
        PreparedCall {
            id: call.id.clone(),
            name: call.function.name.clone(),
            args: Arc::new(args),
            summary,
            argument,
            kind: tool.kind,
        },
    )
}

/// What the parser makes of the arguments of a call. Models leave them out
/// where a tool takes none.
pub open spec fn is_parsed(call: CallView, r: Result<Json, Seq<char>>) -> bool {
    let raw = text::trimmed(call.arguments);
    if raw.len() == 0 {
        r matches Ok(Json::Object(m)) && m@.len() == 0
    } else {
        r == parsed_json(raw)
    }
}

/// Prepares a call: finds its tool and reads its arguments.
pub fn prepare(tools: &ToolRegistry, mode: PermissionMode, call: &ToolCall) -> (r: Result<
    PreparedCall,
    Refusal,
>)
    requires
        tools.wf(),
    ensures
        exists|parsed: Result<Json, Seq<char>>| #[trigger]
            is_parsed(call@, parsed) && is_prepared(tools.tools@, mode, call@, parsed, r),
{
    let parsed = call.parsed_arguments();
    let ghost seen = result_text(parsed);
    assert(is_parsed(call@, seen));
    prepare_parsed(tools, mode, call, parsed)
}

// ---------------------------------------------------------------------------
// Whether a call runs
// ---------------------------------------------------------------------------

/// What comes next for a call.
#[derive(Debug)]
pub enum Gate {
    Refused(Refusal),
    /// The user is to be asked.
    Ask,
    Run,
}

/// What comes next for a call, as text: a refusal's reason and its content.
pub enum GateView {
    Refused(Seq<char>, Seq<char>),
    Ask,
    Run,
}

/// Whether a gate says what its view says, of a given call.
pub open spec fn is_gate(g: Gate, v: GateView, p: PreparedCall) -> bool {
    match v {
        GateView::Refused(reason, content) => g matches Gate::Refused(f) && f@ == (RefusalView {
            id: p.id@,
            name: p.name@,
            reason,
            content,
        }),
        GateView::Ask => g is Ask,
        GateView::Run => g is Run,
    }
}

/// What follows from the hooks and the permission rules.
///
/// A veto by a hook is final, and so is a refusal by the rules: a hook's
/// approval stands in for the user's answer and for nothing else.
pub open spec fn gate(hook: HookView, decision: DecisionView) -> GateView {
    match hook {
        HookView::Deny(reason) => GateView::Refused(reason, "Tool call blocked: "@ + reason),
        _ => match decision {
            DecisionView::Allow(_) => GateView::Run,
            DecisionView::Deny(reason) => GateView::Refused(
                reason,
                "Tool call refused: "@ + reason,
            ),
            DecisionView::Ask => if hook is Allow {
                GateView::Run
            } else {
                GateView::Ask
            },
        },
    }
}

fn refusal(p: &PreparedCall, reason: &str, content: String) -> (r: Refusal)
    ensures
        r@ == (RefusalView { id: p.id@, name: p.name@, reason: reason@, content: content@ }),
{
    Refusal { id: p.id.clone(), name: p.name.clone(), reason: reason.to_owned(), content }
}

/// Decides on a call, once the hooks have spoken.
pub fn check(
    permissions: &PermissionEngine,
    mode: PermissionMode,
    p: &PreparedCall,
    hook: &HookDecision,
) -> (r: Gate)
    ensures
        is_gate(
            r,
            gate(hook@, decided(permissions@, mode, p.name@, p.kind, p.argument@)),
            *p,
        ),
{
    match hook {
        HookDecision::Deny { reason } => {
            let mut content = "Tool call blocked: ".to_owned();
            content.append(reason);
            return Gate::Refused(refusal(p, reason, content));
        },
        _ => {},
    }
    match permissions.evaluate_in(mode, &p.name, p.kind, &p.argument) {
        Decision::Allow { .. } => Gate::Run,
        Decision::Deny { reason } => {
            let mut content = "Tool call refused: ".to_owned();
            content.append(&reason);
            Gate::Refused(refusal(p, &reason, content))
        },
        Decision::Ask => match hook {
            HookDecision::Allow { .. } => Gate::Run,
            _ => Gate::Ask,
        },
    }
}

/// What the user answers.
#[derive(Debug, Clone, Copy, PartialEq, Eq, Structural)]
pub enum PermissionResponse {
    /// Run it, just this once.
    Once,
    /// Run it, and stop asking for this tool and argument.
    Always,
    /// Refuse.
    Reject,
}

pub const DECLINED: &'static str = "the user declined this action";

/// What follows from the user's answer.
pub open spec fn gate_after(answer: PermissionResponse) -> GateView {
    match answer {
        PermissionResponse::Reject => GateView::Refused(
            DECLINED@,
            "Tool call refused: "@ + DECLINED@
                + ". Ask what they would prefer instead of retrying."@,
        ),
        _ => GateView::Run,
    }
}

/// The session's grants after an answer.
pub open spec fn grants_after(
    before: EngineView,
    name: Seq<char>,
    argument: Seq<char>,
    answer: PermissionResponse,
) -> Seq<Seq<char>> {
    if answer == PermissionResponse::Always && !crate::permissions::is_chained(name, argument)
        && !before.grants.contains(crate::permissions::key_of(name, argument)) {
        before.grants.push(crate::permissions::key_of(name, argument))
    } else {
        before.grants
    }
}

/// Takes the user's answer. Without anyone to ask, the answer is no: defaulting
/// to yes would silently turn an unattended run into an unsupervised one.
pub fn answered_by_user(
    permissions: &mut PermissionEngine,
    p: &PreparedCall,
    answer: Option<PermissionResponse>,
) -> (r: Gate)
    requires
        old(permissions).wf(),
    ensures
        final(permissions).wf(),
        ({
            let a = match answer {
                Some(x) => x,
                None => PermissionResponse::Reject,
            };
            &&& is_gate(r, gate_after(a), *p)
            &&& final(permissions)@.grants == grants_after(
                old(permissions)@,
                p.name@,
                p.argument@,
                a,
            )
        }),
        final(permissions)@.allow == old(permissions)@.allow,
        final(permissions)@.deny == old(permissions)@.deny,
        final(permissions)@.ask == old(permissions)@.ask,
        final(permissions).invalid == old(permissions).invalid,
        final(permissions).mode == old(permissions).mode,
{
    let a = match answer {
        Some(x) => x,
        None => PermissionResponse::Reject,
    };
    match a {
        PermissionResponse::Reject => {
            let mut content = "Tool call refused: ".to_owned();
            content.append(DECLINED);
            content.append(". Ask what they would prefer instead of retrying.");
            Gate::Refused(refusal(p, DECLINED, content))
        },
        PermissionResponse::Always => {
            permissions.grant_for_session(&p.name, &p.argument);
            Gate::Run
        },
        PermissionResponse::Once => Gate::Run,
    }
}

/// No approval overrides a refusal: what a deny rule or the mode refuses does
/// not run, whatever the hooks say.
pub proof fn law_denied_calls_never_run(
    hook: HookView,
    engine: EngineView,
    mode: PermissionMode,
    name: Seq<char>,
    kind: ToolKind,
    argument: Seq<char>,
)
    requires
        decided(engine, mode, name, kind, argument) is Deny,
    ensures
        gate(hook, decided(engine, mode, name, kind, argument)) is Refused,
{
}

/// A hook's veto stops a call in every mode, whatever the rules allow.
pub proof fn law_vetoed_calls_never_run(reason: Seq<char>, decision: DecisionView)
    ensures
        gate(HookView::Deny(reason), decision) is Refused,
{
}

/// Nothing runs unasked unless the rules allow it or a hook approved it.
pub proof fn law_unapproved_calls_are_asked(hook: HookView, decision: DecisionView)
    requires
        gate(hook, decision) is Run,
    ensures
        decision is Allow || hook is Allow,
{
}

/// The warnings among what hooks say before a tool runs.
pub open spec fn warnings(hook: HookView) -> Seq<Seq<char>> {
    match hook {
        HookView::Proceed(context) => context.filter(
            |c: Seq<char>| text::contains(c, "failed"@),
        ),
        _ => Seq::empty(),
    }
}

/// The warnings among what hooks say before a tool runs.
pub fn hook_warnings(hook: &HookDecision) -> (r: Vec<String>)
    ensures
        text::views(r@) == warnings(hook@),
{
    let mut out: Vec<String> = Vec::new();
    assert(text::views(out@) =~= Seq::<Seq<char>>::empty());
    match hook {
        HookDecision::Proceed { context } => {
            let ghost all = text::views(context@);
            let ghost keep = |c: Seq<char>| text::contains(c, "failed"@);
            let mut i: usize = 0;
            proof {
                reveal(Seq::filter);
            }
            while i < context.len()
                invariant
                    i <= context.len(),
                    all == text::views(context@),
                    keep == (|c: Seq<char>| text::contains(c, "failed"@)),
                    text::views(out@) == all.take(i as int).filter(keep),
                decreases context.len() - i,
            {
                proof {
                    reveal(Seq::filter);
                    assert(all.take(i + 1).drop_last() =~= all.take(i as int));
                    assert(all[i as int] == context@[i as int]@);
                }
                if text::has(&context[i], "failed") {
                    let ghost before = text::views(out@);
                    out.push(context[i].clone());
                    assert(text::views(out@) =~= before.push(all[i as int]));
                }
                i += 1;
            }
            assert(all.take(all.len() as int) =~= all);
        },
        _ => {},
    }
    out
}

// ---------------------------------------------------------------------------
// After a call
// ---------------------------------------------------------------------------

/// What a tool reported, where running it worked; else what is said of the
/// failure.
pub fn settled(name: &str, result: Result<ToolOutcome, String>) -> (r: ToolOutcome)
    ensures
        match result {
            Ok(o) => r == o,
            Err(e) => crate::tools::fs::is_failure(r, name@ + " failed: "@ + e@),
        },
{
    match result {
        Ok(o) => o,
        Err(e) => {
            let mut s = name.to_owned();
            s.append(" failed: ");
            s.append(&e);
            ToolOutcome::error(&s)
        },
    }
}

/// A text with what hooks add to it.
pub open spec fn with_context(s: Seq<char>, hook: HookView) -> Seq<char> {
    match hook {
        HookView::Proceed(context) => if context.len() > 0 {
            s + "\n\n<hook-context>\n"@ + text::joined(context, "\n"@) + "\n</hook-context>"@
        } else {
            s
        },
        _ => s,
    }
}

/// A text with what hooks add to it.
pub fn add_context(s: &str, hook: &HookDecision) -> (r: String)
    ensures
        r@ == with_context(s@, hook@),
{
    let mut out = s.to_owned();
    match hook {
        HookDecision::Proceed { context } => {
            assert(text::views(context@).len() == context@.len());
            if context.len() > 0 {
                out.append("\n\n<hook-context>\n");
                out.append(&text::join(context, "\n"));
                out.append("\n</hook-context>");
            }
        },
        _ => {},
    }
    out
}

// ---------------------------------------------------------------------------
// Every call is answered
// ---------------------------------------------------------------------------

/// The calls that a message makes.
pub open spec fn calls_of(m: MessageView) -> Seq<CallView> {
    match m.tool_calls {
        Some(c) => c,
        None => Seq::empty(),
    }
}

/// Whether a message answers a call.
pub open spec fn answers(m: MessageView, c: CallView) -> bool {
    has_role(m, Role::Tool) && m.tool_call_id == Some(c.id)
}

/// Whether every call in a conversation is answered: behind an assistant
/// message with calls stand the answers to them, one each and in order, and
/// there are no other answers.
pub open spec fn answered(messages: Seq<MessageView>) -> bool
    decreases messages.len(),
{
    if messages.len() == 0 {
        true
    } else {
        let n = calls_of(messages[0]).len();
        &&& !has_role(messages[0], Role::Tool)
        &&& n > 0 ==> has_role(messages[0], Role::Assistant)
        &&& messages.len() >= 1 + n
        &&& forall|j: int|
            0 <= j < n ==> answers(#[trigger] messages[1 + j], calls_of(messages[0])[j])
        &&& answered(messages.skip((1 + n) as int))
    }
}

/// The calls of one completion, while they are being answered.
#[derive(Debug)]
pub struct OpenCalls {
    pub calls: Vec<ToolCall>,
    /// How many of them are answered.
    pub done: usize,
    /// Whether the user interrupted the turn before any of them ran.
    pub interrupted: bool,
}

/// What the model is told of a call that an interrupt came before.
pub const INTERRUPTED: &'static str = "The user interrupted this turn before the tool ran.";

impl OpenCalls {
    pub open spec fn wf(&self) -> bool {
        self.done <= self.calls@.len()
    }

    pub fn new(calls: &Vec<ToolCall>, interrupted: bool) -> (r: Self)
        ensures
            r.wf(),
            call_views(r.calls@) == call_views(calls@),
            r.done == 0,
            r.interrupted == interrupted,
    {
        OpenCalls { calls: clone_calls(calls), done: 0, interrupted }
    }

    /// The call that is to be answered next.
    pub fn current(&self) -> (r: Option<&ToolCall>)
        requires
            self.wf(),
        ensures
            match r {
                Some(c) => self.done < self.calls@.len() && *c == self.calls@[self.done as int],
                None => self.done == self.calls@.len(),
            },
    {
        if self.done < self.calls.len() {
            Some(&self.calls[self.done])
        } else {
            None
        }
    }

    /// The answer to the next call.
    pub fn answer(&mut self, content: &str) -> (r: Message)
        requires
            old(self).wf(),
            old(self).done < old(self).calls@.len(),
        ensures
            final(self).wf(),
            final(self).calls == old(self).calls,
            final(self).interrupted == old(self).interrupted,
            final(self).done == old(self).done + 1,
            r@ == tool_message(call_views(old(self).calls@)[old(self).done as int].id, content@),
    {
        let m = Message::tool_result(&self.calls[self.done].id, content);
        assert(self.calls.len() <= usize::MAX);
        self.done += 1;
        m
    }
}

/// The answers to calls, one each and in order.
pub open spec fn answers_to(calls: Seq<CallView>, contents: Seq<Seq<char>>) -> Seq<MessageView> {
    Seq::new(calls.len(), |j: int| tool_message(calls[j].id, contents[j]))
}

proof fn lemma_roles_differ()
    ensures
        role_name(Role::System) != role_name(Role::Tool),
        role_name(Role::System) != role_name(Role::Assistant),
        role_name(Role::System) != role_name(Role::User),
        role_name(Role::User) != role_name(Role::Tool),
        role_name(Role::Assistant) != role_name(Role::Tool),
{
    if role_name(Role::System) == role_name(Role::Tool) {
        law_role_names_distinct(Role::System, Role::Tool);
    }
    if role_name(Role::System) == role_name(Role::Assistant) {
        law_role_names_distinct(Role::System, Role::Assistant);
    }
    if role_name(Role::System) == role_name(Role::User) {
        law_role_names_distinct(Role::System, Role::User);
    }
    if role_name(Role::User) == role_name(Role::Tool) {
        law_role_names_distinct(Role::User, Role::Tool);
    }
    if role_name(Role::Assistant) == role_name(Role::Tool) {
        law_role_names_distinct(Role::Assistant, Role::Tool);
    }
}

/// Conversations in which every call is answered can be put one behind the
/// other.
pub proof fn lemma_answered_append(a: Seq<MessageView>, b: Seq<MessageView>)
    requires
        answered(a),
        answered(b),
    ensures
        answered(a + b),
    decreases a.len(),
{
    if a.len() == 0 {
        assert(a + b =~= b);
    } else {
        let n = (1 + calls_of(a[0]).len()) as int;
        lemma_answered_append(a.skip(n), b);
        assert((a + b).skip(n) =~= a.skip(n) + b);
        assert((a + b)[0] == a[0]);
        assert forall|j: int| 0 <= j < n - 1 implies answers(
            #[trigger] (a + b)[1 + j],
            calls_of(a[0])[j],
        ) by {
            assert((a + b)[1 + j] == a[1 + j]);
        }
    }
}

/// A message that makes no calls and answers none leaves every call answered.
pub proof fn lemma_answered_push(a: Seq<MessageView>, m: MessageView)
    requires
        answered(a),
        calls_of(m).len() == 0,
        !has_role(m, Role::Tool),
    ensures
        answered(a.push(m)),
{
    let one = seq![m];
    assert(one.skip(1).len() == 0);
    assert(answered(one.skip(1)));
    assert(answered(one));
    lemma_answered_append(a, one);
    assert(a + one =~= a.push(m));
}

/// Every tool call gets exactly one tool message in reply, behind the assistant
/// message that made it: where every call of a conversation is answered, it
/// still is once a completion and the answers to its calls are added, whatever
/// the answers say.
pub proof fn law_every_call_is_answered(
    before: Seq<MessageView>,
    completion: MessageView,
    contents: Seq<Seq<char>>,
)
    requires
        answered(before),
        has_role(completion, Role::Assistant),
        contents.len() == calls_of(completion).len(),
    ensures
        answered(before.push(completion) + answers_to(calls_of(completion), contents)),
{
    lemma_roles_differ();
    let calls = calls_of(completion);
    let group = seq![completion] + answers_to(calls, contents);
    assert(group[0] == completion);
    assert forall|j: int| 0 <= j < calls.len() implies answers(
        #[trigger] group[1 + j],
        calls[j],
    ) by {
        assert(group[1 + j] == tool_message(calls[j].id, contents[j]));
    }
    assert(group.skip((1 + calls.len()) as int).len() == 0);
    assert(answered(group.skip((1 + calls.len()) as int)));
    assert(answered(group));
    lemma_answered_append(before, group);
    assert(before + group =~= before.push(completion) + answers_to(calls, contents));
}

/// A conversation in which every call is answered can be cut before anything
/// that is no answer, and every call in both parts is answered.
pub proof fn lemma_answered_split(messages: Seq<MessageView>, k: int)
    requires
        answered(messages),
        0 <= k <= messages.len(),
        k == messages.len() || !has_role(messages[k], Role::Tool),
    ensures
        answered(messages.skip(k)),
        answered(messages.take(k)),
    decreases messages.len(),
{
    if k == 0 {
        assert(messages.skip(0) =~= messages);
        assert(messages.take(0).len() == 0);
    } else {
        let n = (1 + calls_of(messages[0]).len()) as int;
        let rest = messages.skip(n);
        if k < n {
            assert(answers(messages[1 + (k - 1)], calls_of(messages[0])[k - 1]));
        }
        if k < messages.len() {
            assert(rest[k - n] == messages[k]);
        }
        lemma_answered_split(rest, k - n);
        assert(rest.skip(k - n) =~= messages.skip(k));
        let head = messages.take(k);
        assert(head.skip(n) =~= rest.take(k - n));
        assert(head[0] == messages[0]);
        assert forall|j: int| 0 <= j < n - 1 implies answers(
            #[trigger] head[1 + j],
            calls_of(messages[0])[j],
        ) by {
            assert(head[1 + j] == messages[1 + j]);
        }
    }
}

/// The messages that are not the harness's own.
pub open spec fn body_of(messages: Seq<MessageView>) -> Seq<MessageView> {
    messages.filter(|m: MessageView| !has_role(m, Role::System))
}

/// Taking the harness's own messages out, or keeping only them, leaves every
/// call answered.
pub proof fn lemma_answered_without_system(messages: Seq<MessageView>)
    requires
        answered(messages),
    ensures
        answered(body_of(messages)),
        answered(system_only(messages)),
    decreases messages.len(),
{
    let keep = |m: MessageView| !has_role(m, Role::System);
    let sys = |m: MessageView| has_role(m, Role::System);
    reveal(Seq::filter);
    if messages.len() == 0 {
        assert(body_of(messages).len() == 0);
        assert(system_only(messages).len() == 0);
    } else {
        lemma_roles_differ();
        let n = (1 + calls_of(messages[0]).len()) as int;
        let group = messages.take(n);
        let rest = messages.skip(n);
        lemma_answered_without_system(rest);
        assert(messages =~= group + rest);
        Seq::filter_distributes_over_add(group, rest, keep);
        Seq::filter_distributes_over_add(group, rest, sys);
        if n == 1 {
            let m = messages[0];
            assert(group =~= seq![m]);
            lemma_answered_group(messages);
            if has_role(m, Role::System) {
                lemma_filter_none(group, keep);
                lemma_filter_all(group, sys);
            } else {
                lemma_filter_all(group, keep);
                lemma_filter_none(group, sys);
            }
        } else {
            assert forall|i: int| 0 <= i < n implies keep(#[trigger] group[i]) by {
                if i > 0 {
                    assert(answers(messages[1 + (i - 1)], calls_of(messages[0])[i - 1]));
                }
            }
            lemma_filter_all(group, keep);
            lemma_filter_none(group, sys);
            lemma_answered_group(messages);
        }
        lemma_answered_append(group.filter(keep), body_of(rest));
        lemma_answered_append(group.filter(sys), system_only(rest));
    }
}

proof fn lemma_answered_group(messages: Seq<MessageView>)
    requires
        answered(messages),
        messages.len() > 0,
    ensures
        answered(messages.take((1 + calls_of(messages[0]).len()) as int)),
{
    let n = (1 + calls_of(messages[0]).len()) as int;
    let group = messages.take(n);
    assert(group[0] == messages[0]);
    assert(group.skip(n).len() == 0);
    assert(answered(group.skip(n)));
    assert forall|j: int| 0 <= j < n - 1 implies answers(
        #[trigger] group[1 + j],
        calls_of(messages[0])[j],
    ) by {
        assert(group[1 + j] == messages[1 + j]);
    }
}

proof fn lemma_filter_all(s: Seq<MessageView>, p: spec_fn(MessageView) -> bool)
    requires
        forall|i: int| 0 <= i < s.len() ==> p(#[trigger] s[i]),
    ensures
        s.filter(p) == s,
    decreases s.len(),
{
    reveal(Seq::filter);
    if s.len() > 0 {
        lemma_filter_all(s.drop_last(), p);
        assert(p(s[s.len() - 1]));
        assert(s.drop_last().push(s.last()) =~= s);
    }
}

proof fn lemma_filter_none(s: Seq<MessageView>, p: spec_fn(MessageView) -> bool)
    requires
        forall|i: int| 0 <= i < s.len() ==> !p(#[trigger] s[i]),
    ensures
        s.filter(p).len() == 0,
        s.filter(p) == Seq::<MessageView>::empty(),
    decreases s.len(),
{
    reveal(Seq::filter);
    if s.len() > 0 {
        lemma_filter_none(s.drop_last(), p);
        assert(!p(s[s.len() - 1]));
    }
}

/// A prompt of the user keeps every call answered.
pub proof fn law_prompts_keep_calls_answered(before: Seq<MessageView>, prompt: Seq<char>)
    requires
        answered(before),
    ensures
        answered(before.push(text_message(Role::User, prompt))),
{
    lemma_roles_differ();
    lemma_answered_push(before, text_message(Role::User, prompt));
}

/// A clear keeps every call answered.
pub proof fn law_clear_keeps_calls_answered(before: Seq<MessageView>)
    requires
        answered(before),
    ensures
        answered(system_only(before)),
{
    lemma_answered_without_system(before);
}

} // verus!
