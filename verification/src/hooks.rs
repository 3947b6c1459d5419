//! User-defined hooks: shell commands that observe and can veto agent actions.
//!
//! A hook is a program. It receives a JSON event on stdin and may reply with
//! JSON on stdout, such as `{"decision":"deny","reason":"blocked by policy"}`.
//! Exit code 2 also means deny, with stderr as the reason.
//!
//! Failures are not fatal, and never become an approval: they fall through to
//! the normal permission path. The programs are run by the caller; which of
//! them run, and what their answers amount to, is decided here.
use std::sync::Arc;
use vstd::prelude::*;
use vstd::string::StringExecFns;
use crate::api::sse::{decode_lossy, utf8_lossy};
use crate::api::types::clone_text;
use crate::config::HookConfig;
use crate::json::{field, parse_json, parsed_json, Json};
use crate::matching::{regex_error, regex_is_match, regex_matches};
use crate::table::{in_order, lemma_in_order_distinct, lemma_map_of, list_at, precedes, Table};
use crate::text;

verus! {

/// Points in the agent's lifecycle where hooks can fire.
#[derive(Debug, Clone, Copy, PartialEq, Eq, Structural)]
pub enum HookEvent {
    /// Once, when the session starts. Output is added to the system prompt.
    SessionStart,
    /// Before each user prompt is sent. Output is appended to the prompt.
    UserPromptSubmit,
    /// Before a tool runs. Can deny.
    PreToolUse,
    /// After a tool runs. Cannot deny; output is shown to the model.
    PostToolUse,
    /// When the agent finishes a turn.
    Stop,
}

/// The name of an event in the configuration and on the wire.
pub open spec fn event_name(event: HookEvent) -> Seq<char> {
    match event {
        HookEvent::SessionStart => "SessionStart"@,
        HookEvent::UserPromptSubmit => "UserPromptSubmit"@,
        HookEvent::PreToolUse => "PreToolUse"@,
        HookEvent::PostToolUse => "PostToolUse"@,
        HookEvent::Stop => "Stop"@,
    }
}

impl HookEvent {
    pub fn as_str(self) -> (r: &'static str)
        ensures
            r@ == event_name(self),
    {
        match self {
            HookEvent::SessionStart => "SessionStart",
            HookEvent::UserPromptSubmit => "UserPromptSubmit",
            HookEvent::PreToolUse => "PreToolUse",
            HookEvent::PostToolUse => "PostToolUse",
            HookEvent::Stop => "Stop",
        }
    }

    /// Only `PreToolUse` can block. A `PostToolUse` deny would be meaningless:
    /// the side effect already happened.
    pub fn can_block(self) -> (r: bool)
        ensures
            r == (self == HookEvent::PreToolUse),
    {
        self == HookEvent::PreToolUse
    }
}

/// The JSON handed to a hook on stdin.
#[derive(Debug)]
pub struct HookPayload {
    pub event: String,
    pub session_id: String,
    pub cwd: String,
    pub tool_name: Option<String>,
    pub tool_input: Option<Arc<Json>>,
    pub tool_output: Option<String>,
    pub prompt: Option<String>,
}

/// The JSON a hook may return on stdout.
#[derive(Debug)]
pub struct HookReply {
    pub decision: Option<String>,
    pub reason: Option<String>,
    /// Text to inject into the conversation.
    pub context: Option<String>,
}

/// A reply, as text.
pub struct ReplyView {
    pub decision: Option<Seq<char>>,
    pub reason: Option<Seq<char>>,
    pub context: Option<Seq<char>>,
}

impl View for HookReply {
    type V = ReplyView;

    open spec fn view(&self) -> ReplyView {
        ReplyView {
            decision: text::opt_view(self.decision),
            reason: text::opt_view(self.reason),
            context: text::opt_view(self.context),
        }
    }
}

impl Default for HookReply {
    fn default() -> (r: Self)
        ensures
            r@ == silent(),
    {
        HookReply { decision: None, reason: None, context: None }
    }
}

/// A reply that says nothing.
pub open spec fn silent() -> ReplyView {
    ReplyView { decision: None, reason: None, context: None }
}

/// What the hooks collectively decided.
#[derive(Debug)]
pub enum HookDecision {
    /// Nothing objected. `context` is any text hooks asked to inject.
    Proceed { context: Vec<String> },
    /// A hook explicitly approved, skipping the permission prompt.
    Allow { reason: String },
    /// A hook vetoed. `reason` goes to the model as the tool result.
    Deny { reason: String },
}

/// A collective decision, as text.
pub enum HookView {
    Proceed(Seq<Seq<char>>),
    Allow(Seq<char>),
    Deny(Seq<char>),
}

impl View for HookDecision {
    type V = HookView;

    open spec fn view(&self) -> HookView {
        match *self {
            HookDecision::Proceed { context } => HookView::Proceed(text::views(context@)),
            HookDecision::Allow { reason } => HookView::Allow(reason@),
            HookDecision::Deny { reason } => HookView::Deny(reason@),
        }
    }
}

/// What hooks asked to inject.
pub open spec fn injected(hook: HookView) -> Seq<Seq<char>> {
    match hook {
        HookView::Proceed(context) => context,
        _ => Seq::empty(),
    }
}

impl HookDecision {
    /// What hooks asked to inject. At the start of a session it goes to the
    /// system prompt.
    pub fn into_context(self) -> (r: Vec<String>)
        ensures
            text::views(r@) == injected(self@),
    {
        match self {
            HookDecision::Proceed { context } => context,
            _ => {
                let none: Vec<String> = Vec::new();
                assert(text::views(none@) =~= Seq::<Seq<char>>::empty());
                none
            },
        }
    }
}

// ---------------------------------------------------------------------------
// Which hooks run
// ---------------------------------------------------------------------------

/// A hook, as text: its matcher, its command and its timeout.
pub open spec fn hook_view(h: HookConfig) -> (Option<Seq<char>>, Seq<char>, u64) {
    (text::opt_view(h.matcher), h.command@, h.timeout_secs)
}

/// The hooks of a list, as text.
pub open spec fn hook_views(list: Seq<HookConfig>) -> Seq<(Option<Seq<char>>, Seq<char>, u64)> {
    list.map_values(|h: HookConfig| hook_view(h))
}

/// Whether a hook fires for a tool. One without a matcher always does; one with
/// a matcher never does where no tool is involved.
pub open spec fn fires(h: (Option<Seq<char>>, Seq<char>, u64), tool: Option<Seq<char>>) -> bool {
    match (h.0, tool) {
        (None, _) => true,
        (Some(_), None) => false,
        (Some(pattern), Some(name)) => regex_matches(pattern, false, name),
    }
}

impl Clone for HookConfig {
    fn clone(&self) -> (r: Self)
        ensures
            hook_view(r) == hook_view(*self),
    {
        HookConfig {
            matcher: clone_text(&self.matcher),
            command: self.command.clone(),
            timeout_secs: self.timeout_secs,
        }
    }
}

/// Whether two tables have the same hooks for every event, in the same order.
pub open spec fn same_hooks(
    a: Map<Seq<char>, Vec<HookConfig>>,
    b: Map<Seq<char>, Vec<HookConfig>>,
) -> bool {
    &&& a.dom() == b.dom()
    &&& forall|event: Seq<char>| #[trigger]
        hook_views(list_at(a, event)) == hook_views(list_at(b, event))
}

fn copy_hook_list(list: &Vec<HookConfig>) -> (r: Vec<HookConfig>)
    ensures
        hook_views(r@) == hook_views(list@),
{
    let ghost all = hook_views(list@);
    let mut out: Vec<HookConfig> = Vec::new();
    let mut i: usize = 0;
    assert(hook_views(out@) =~= all.take(0));
    while i < list.len()
        invariant
            i <= list.len(),
            all == hook_views(list@),
            hook_views(out@) == all.take(i as int),
        decreases list.len() - i,
    {
        assert(all[i as int] == hook_view(list@[i as int]));
        let ghost before = hook_views(out@);
        let h = list[i].clone();
        let ghost hv = hook_view(h);
        out.push(h);
        assert(hook_views(out@) =~= before.push(hv));
        i += 1;
        assert(hook_views(out@) =~= all.take(i as int));
    }
    assert(all.take(all.len() as int) =~= all);
    out
}

/// A copy of the hooks.
pub fn copy_hooks(hooks: &Table<Vec<HookConfig>>) -> (r: Table<Vec<HookConfig>>)
    requires
        hooks.wf(),
    ensures
        r.wf(),
        same_hooks(r@, hooks@),
{
    let ghost all = hooks.entries@;
    let mut entries: Vec<(String, Vec<HookConfig>)> = Vec::new();
    let mut i: usize = 0;
    while i < hooks.entries.len()
        invariant
            i <= hooks.entries.len(),
            all == hooks.entries@,
            entries@.len() == i,
            forall|k: int|
                0 <= k < i ==> (#[trigger] entries@[k]).0@ == all[k].0@ && hook_views(
                    entries@[k].1@,
                ) == hook_views(all[k].1@),
        decreases hooks.entries.len() - i,
    {
        entries.push((hooks.entries[i].0.clone(), copy_hook_list(&hooks.entries[i].1)));
        i += 1;
    }
    let r = Table { entries };
    proof {
        let copy = r.entries@;
        assert(in_order(copy)) by {
            assert forall|a: int, b: int| 0 <= a < b < copy.len() implies precedes(
                (#[trigger] copy[a]).0@,
                (#[trigger] copy[b]).0@,
            ) by {
                assert(precedes(all[a].0@, all[b].0@));
            }
        }
        lemma_in_order_distinct(all);
        lemma_in_order_distinct(copy);
        lemma_map_of(all);
        lemma_map_of(copy);
        assert forall|event: Seq<char>| r@.contains_key(event) == #[trigger] hooks@.contains_key(
            event,
        ) && hook_views(list_at(r@, event)) == hook_views(list_at(hooks@, event)) by {
            if hooks@.contains_key(event) {
                let k = choose|k: int| 0 <= k < all.len() && (#[trigger] all[k]).0@ == event;
                assert(copy[k].0@ == event);
            }
            if r@.contains_key(event) {
                let k = choose|k: int| 0 <= k < copy.len() && (#[trigger] copy[k]).0@ == event;
                assert(all[k].0@ == event);
            }
        }
        assert(r@.dom() =~= hooks@.dom());
        assert forall|event: Seq<char>| #[trigger]
            hook_views(list_at(r@, event)) == hook_views(list_at(hooks@, event)) by {
            assert(hooks@.contains_key(event) || !hooks@.contains_key(event));
        }
    }
    r
}

/// Whether a hook fires for a tool. An invalid matcher matches nothing: matching
/// everything would be the dangerous reading of a typo.
pub fn accepts(hook: &HookConfig, tool_name: Option<&str>) -> (r: bool)
    ensures
        r == fires(hook_view(*hook), crate::config::opt_str(tool_name)),
        hook.matcher matches Some(m) && regex_error(m@, false) is Some ==> !r,
{
    match (&hook.matcher, tool_name) {
        (None, _) => true,
        (Some(_), None) => false,
        (Some(pattern), Some(name)) => regex_is_match(pattern, false, name),
    }
}

/// The hooks configured for a session.
#[derive(Debug)]
pub struct HookRunner {
    pub hooks: Table<Vec<HookConfig>>,
    pub session_id: String,
    pub workspace: String,
}

impl HookRunner {
    pub open spec fn wf(&self) -> bool {
        self.hooks.wf()
    }

    pub fn new(hooks: Table<Vec<HookConfig>>, session_id: &str, workspace: &str) -> (r: Self)
        ensures
            r.hooks == hooks,
            r.session_id@ == session_id@,
            r.workspace@ == workspace@,
    {
        HookRunner { hooks, session_id: session_id.to_owned(), workspace: workspace.to_owned() }
    }

    /// Whether no event has a hook.
    pub fn is_empty(&self) -> (r: bool)
        ensures
            r == forall|i: int|
                0 <= i < self.hooks.entries@.len() ==> (#[trigger] self.hooks.entries@[i]).1@.len()
                    == 0,
    {
        let mut i: usize = 0;
        while i < self.hooks.entries.len()
            invariant
                i <= self.hooks.entries.len(),
                forall|j: int|
                    0 <= j < i ==> (#[trigger] self.hooks.entries@[j]).1@.len() == 0,
            decreases self.hooks.entries.len() - i,
        {
            if self.hooks.entries[i].1.len() > 0 {
                assert(self.hooks.entries@[i as int].1@.len() != 0);
                return false;
            }
            i += 1;
        }
        true
    }

    /// Hooks registered for `event` whose matcher accepts `tool_name`, in order.
    pub fn matching(&self, event: HookEvent, tool_name: Option<&str>) -> (r: Vec<HookConfig>)
        requires
            self.wf(),
        ensures
            hook_views(r@) == hook_views(list_at(self.hooks@, event_name(event))).filter(
                |h: (Option<Seq<char>>, Seq<char>, u64)|
                    fires(h, crate::config::opt_str(tool_name)),
            ),
    {
        let ghost tool = crate::config::opt_str(tool_name);
        let ghost keep = |h: (Option<Seq<char>>, Seq<char>, u64)| fires(h, tool);
        let ghost all = hook_views(list_at(self.hooks@, event_name(event)));
        let mut out: Vec<HookConfig> = Vec::new();
        assert(hook_views(out@) =~= Seq::empty());
        proof {
            reveal(Seq::filter);
        }
        match self.hooks.get(event.as_str()) {
            None => {
                assert(all =~= Seq::empty());
            },
            Some(list) => {
                let mut i: usize = 0;
                while i < list.len()
                    invariant
                        i <= list.len(),
                        all == hook_views(list@),
                        tool == crate::config::opt_str(tool_name),
                        keep == (|h: (Option<Seq<char>>, Seq<char>, u64)| fires(h, tool)),
                        hook_views(out@) == all.take(i as int).filter(keep),
                    decreases list.len() - i,
                {
                    proof {
                        reveal(Seq::filter);
                        assert(all.take(i + 1).drop_last() =~= all.take(i as int));
                        assert(all[i as int] == hook_view(list@[i as int]));
                    }
                    if accepts(&list[i], tool_name) {
                        let ghost before = hook_views(out@);
                        let h = list[i].clone();
                        let ghost hv = hook_view(h);
                        out.push(h);
                        assert(hook_views(out@) =~= before.push(hv));
                    }
                    i += 1;
                }
                assert(all.take(all.len() as int) =~= all);
            },
        }
        out
    }
}

/// How long a hook may run, in seconds.
pub open spec fn allowed_seconds(timeout: u64) -> u64 {
    if timeout < 1 {
        1
    } else if timeout > 300 {
        300
    } else {
        timeout
    }
}

/// How long a hook may run, in seconds.
pub fn time_limit(hook: &HookConfig) -> (r: u64)
    ensures
        r == allowed_seconds(hook.timeout_secs),
{
    if hook.timeout_secs < 1 {
        1
    } else if hook.timeout_secs > 300 {
        300
    } else {
        hook.timeout_secs
    }
}

/// What is said of a hook that ran too long.
pub fn timeout_error(hook: &HookConfig) -> (r: String)
    ensures
        r@ == "timed out after "@ + text::decimal(hook.timeout_secs as nat) + "s"@,
{
    let mut s = "timed out after ".to_owned();
    s.append(&text::number(hook.timeout_secs));
    s.append("s");
    s
}

// ---------------------------------------------------------------------------
// What one hook says
// ---------------------------------------------------------------------------

/// Whether a member is absent, null or a string.
pub open spec fn text_or_nothing(j: Json, key: Seq<char>) -> bool {
    match field(j, key) {
        None => true,
        Some(Json::Null) => true,
        Some(Json::Str(_)) => true,
        _ => false,
    }
}

/// The text of a member, where it has one.
pub open spec fn text_member(j: Json, key: Seq<char>) -> Option<Seq<char>> {
    match field(j, key) {
        Some(Json::Str(s)) => Some(s@),
        _ => None,
    }
}

/// The reply that a JSON value stands for. It is one only if it is an object
/// with at least one of the three members, and those are strings.
pub open spec fn reply_in(j: Json) -> Option<ReplyView> {
    if (field(j, "decision"@) is Some || field(j, "reason"@) is Some || field(j, "context"@) is Some)
        && text_or_nothing(j, "decision"@) && text_or_nothing(j, "reason"@) && text_or_nothing(
        j,
        "context"@,
    ) {
        Some(
            ReplyView {
                decision: text_member(j, "decision"@),
                reason: text_member(j, "reason"@),
                context: text_member(j, "context"@),
            },
        )
    } else {
        None
    }
}

/// Whether a decision approves.
pub open spec fn approves(decision: Option<Seq<char>>) -> bool {
    decision == Some("allow"@) || decision == Some("approve"@)
}

/// Whether a decision vetoes.
pub open spec fn vetoes(decision: Option<Seq<char>>) -> bool {
    decision == Some("deny"@) || decision == Some("block"@)
}

/// What the output of a hook amounts to, given what the parser makes of it and
/// whether it states no member of a reply twice.
pub open spec fn reply_of(
    code: Option<i32>,
    stdout: Seq<char>,
    stderr: Seq<char>,
    parsed: Result<Json, Seq<char>>,
    distinct: bool,
) -> ReplyView {
    if code == Some(2i32) {
        ReplyView {
            decision: Some("deny"@),
            reason: Some(
                if stderr.len() == 0 {
                    "blocked by hook"@
                } else {
                    stderr
                },
            ),
            context: None,
        }
    } else if stdout.len() == 0 {
        silent()
    } else {
        let said = match parsed {
            Ok(j) => if distinct {
                reply_in(j)
            } else {
                None
            },
            Err(_) => None,
        };
        match said {
            Some(r) => if code != Some(0i32) && approves(r.decision) {
                ReplyView { decision: None, ..r }
            } else {
                r
            },
            None => ReplyView { context: Some(stdout), ..silent() },
        }
    }
}

/// A member as text, or whether it is something else.
fn member_text(j: &Json, key: &str) -> (r: (Option<String>, bool, bool))
    ensures
        text::opt_view(r.0) == text_member(*j, key@),
        r.1 == text_or_nothing(*j, key@),
        r.2 == (field(*j, key@) is Some),
{
    match j.get(key) {
        None => (None, true, false),
        Some(Json::Null) => (None, true, true),
        Some(Json::Str(s)) => (Some(s.clone()), true, true),
        _ => (None, false, true),
    }
}

/// The reply that a JSON value stands for.
fn read_reply(j: &Json) -> (r: Option<HookReply>)
    ensures
        match r {
            Some(x) => reply_in(*j) == Some(x@),
            None => reply_in(*j) is None,
        },
{
    let decision = member_text(j, "decision");
    let reason = member_text(j, "reason");
    let context = member_text(j, "context");
    if (decision.2 || reason.2 || context.2) && decision.1 && reason.1 && context.1 {
        Some(HookReply { decision: decision.0, reason: reason.0, context: context.0 })
    } else {
        None
    }
}

fn is_text(s: &Option<String>, wanted: &str) -> (r: bool)
    ensures
        r == (text::opt_view(*s) == Some(wanted@)),
{
    match s {
        Some(t) => text::same(t, wanted),
        None => false,
    }
}

/// What the output of a hook amounts to, given what the parser makes of it.
///
/// Exit code 2 is the path without JSON: block, with stderr as the reason. Text
/// that is no reply is plain output to inject as context, and so is an object
/// that states a member of a reply twice. A hook that failed cannot approve.
pub fn interpret(
    code: Option<i32>,
    stdout: &str,
    stderr: &str,
    parsed: &Result<Json, String>,
    distinct: bool,
) -> (r: HookReply)
    ensures
        r@ == reply_of(
            code,
            stdout@,
            stderr@,
            match *parsed {
                Ok(j) => Ok::<Json, Seq<char>>(j),
                Err(e) => Err::<Json, Seq<char>>(e@),
            },
            distinct,
        ),
{
    let denied = match code {
        Some(c) => c == 2,
        None => false,
    };
    if denied {
        let reason = if stderr.is_empty() {
            "blocked by hook".to_owned()
        } else {
            stderr.to_owned()
        };
        return HookReply { decision: Some("deny".to_owned()), reason: Some(reason), context: None };
    }
    if stdout.is_empty() {
        return HookReply::default();
    }
    let said = match parsed {
        Ok(j) => if distinct {
            read_reply(j)
        } else {
            None
        },
        Err(_) => None,
    };
    match said {
        Some(reply) => {
            let succeeded = match code {
                Some(c) => c == 0,
                None => false,
            };
            if !succeeded && (is_text(&reply.decision, "allow") || is_text(
                &reply.decision,
                "approve",
            )) {
                HookReply { decision: None, reason: reply.reason, context: reply.context }
            } else {
                reply
            }
        },
        None => HookReply { decision: None, reason: None, context: Some(stdout.to_owned()) },
    }
}

/// The text that a hook printed.
pub fn printed(bytes: &[u8]) -> (r: String)
    ensures
        r@ == text::trimmed(utf8_lossy(bytes@)),
{
    text::trim(&decode_lossy(bytes))
}

/// What a hook that ran to its end says. `distinct` tells whether what it
/// printed states no member of a reply twice.
pub fn reply(code: Option<i32>, stdout: &[u8], stderr: &[u8], distinct: bool) -> (r: HookReply)
    ensures
        ({
            let out = text::trimmed(utf8_lossy(stdout@));
            let err = text::trimmed(utf8_lossy(stderr@));
            r@ == reply_of(code, out, err, parsed_json(out), distinct)
        }),
{
    let out = printed(stdout);
    let err = printed(stderr);
    interpret(code, &out, &err, &parse_json(&out), distinct)
}

/// A hook that does not end well never approves.
pub proof fn law_failed_hooks_never_approve(
    code: Option<i32>,
    stdout: Seq<char>,
    stderr: Seq<char>,
    parsed: Result<Json, Seq<char>>,
    distinct: bool,
)
    requires
        code != Some(0i32),
    ensures
        !approves(reply_of(code, stdout, stderr, parsed, distinct).decision),
{
    reveal_strlit("deny");
    reveal_strlit("allow");
    reveal_strlit("approve");
    assert("deny"@.len() == 4 && "allow"@.len() == 5 && "approve"@.len() == 7);
}

// ---------------------------------------------------------------------------
// What the hooks decide together
// ---------------------------------------------------------------------------

/// What became of a hook: its command, and its reply or the error that stopped
/// it.
pub struct OutcomeView {
    pub command: Seq<char>,
    pub reply: Result<ReplyView, Seq<char>>,
}

/// What became of a hook, as text.
pub open spec fn outcome_of(command: Seq<char>, r: Result<HookReply, String>) -> OutcomeView {
    OutcomeView {
        command,
        reply: match r {
            Ok(x) => Ok(x@),
            Err(e) => Err(e@),
        },
    }
}

/// The context that a hook adds.
pub open spec fn context_of(o: OutcomeView) -> Seq<Seq<char>> {
    match o.reply {
        Err(e) => seq!["[hook `"@ + o.command + "` failed: "@ + e + "]"@],
        Ok(r) => match r.context {
            Some(t) => if text::trimmed(t).len() == 0 {
                Seq::empty()
            } else {
                seq![t]
            },
            None => Seq::empty(),
        },
    }
}

/// The reason of a veto, where a hook vetoes and the event can be blocked.
pub open spec fn veto_of(event: HookEvent, o: OutcomeView) -> Option<Seq<char>> {
    match o.reply {
        Ok(r) => if vetoes(r.decision) && event == HookEvent::PreToolUse {
            Some(
                match r.reason {
                    Some(t) => t,
                    None => "blocked by hook `"@ + o.command + "`"@,
                },
            )
        } else {
            None
        },
        Err(_) => None,
    }
}

/// The reason of an approval, where a hook approves.
pub open spec fn approval_of(o: OutcomeView) -> Option<Seq<char>> {
    match o.reply {
        Ok(r) => if approves(r.decision) {
            Some(
                match r.reason {
                    Some(t) => t,
                    None => "approved by hook `"@ + o.command + "`"@,
                },
            )
        } else {
            None
        },
        Err(_) => None,
    }
}

/// What has come together so far: the context and the last approval, or the
/// reason of a veto.
pub open spec fn gathered(event: HookEvent, outcomes: Seq<OutcomeView>) -> Result<
    (Seq<Seq<char>>, Option<Seq<char>>),
    Seq<char>,
>
    decreases outcomes.len(),
{
    if outcomes.len() == 0 {
        Ok((Seq::empty(), None))
    } else {
        match gathered(event, outcomes.drop_last()) {
            Err(reason) => Err(reason),
            Ok((context, approval)) => {
                let o = outcomes.last();
                match veto_of(event, o) {
                    Some(reason) => Err(reason),
                    None => Ok(
                        (
                            context + context_of(o),
                            match approval_of(o) {
                                Some(a) => Some(a),
                                None => approval,
                            },
                        ),
                    ),
                }
            },
        }
    }
}

/// What hooks decide together.
pub open spec fn collective(event: HookEvent, outcomes: Seq<OutcomeView>) -> HookView {
    match gathered(event, outcomes) {
        Err(reason) => HookView::Deny(reason),
        Ok((_, Some(reason))) => HookView::Allow(reason),
        Ok((context, None)) => HookView::Proceed(context),
    }
}

/// The answers of the hooks of one event, as they come in.
pub struct HookRun {
    pub event: HookEvent,
    pub context: Vec<String>,
    pub allow_reason: Option<String>,
    /// The reason of a veto. No hook is asked after one.
    pub denied: Option<String>,
    pub outcomes: Ghost<Seq<OutcomeView>>,
}

impl HookRun {
    /// The fields hold what the answers amount to.
    pub open spec fn wf(&self) -> bool {
        match gathered(self.event, self.outcomes@) {
            Err(reason) => text::opt_view(self.denied) == Some(reason),
            Ok((context, approval)) => {
                &&& self.denied is None
                &&& text::views(self.context@) == context
                &&& text::opt_view(self.allow_reason) == approval
            },
        }
    }

    pub fn new(event: HookEvent) -> (r: Self)
        ensures
            r.wf(),
            r.event == event,
            r.outcomes@.len() == 0,
    {
        let r = HookRun {
            event,
            context: Vec::new(),
            allow_reason: None,
            denied: None,
            outcomes: Ghost(Seq::empty()),
        };
        assert(text::views(r.context@) =~= Seq::<Seq<char>>::empty());
        r
    }

    /// Takes what became of one hook. Returns whether the next one is asked: the
    /// first veto ends the run, while later hooks still see an event that one
    /// before them approved.
    pub fn take(&mut self, command: &str, outcome: Result<HookReply, String>) -> (r: bool)
        requires
            old(self).wf(),
        ensures
            final(self).wf(),
            final(self).event == old(self).event,
            final(self).outcomes@ == old(self).outcomes@.push(
                outcome_of(command@, outcome),
            ),
            r == (gathered(final(self).event, final(self).outcomes@) is Ok),
    {
        let ghost o = outcome_of(command@, outcome);
        let ghost before = self.outcomes@;
        self.outcomes = Ghost(before.push(o));
        assert(before.push(o).drop_last() =~= before);
        if self.denied.is_some() {
            return false;
        }
        let ghost context = text::views(self.context@);
        match outcome {
            Err(e) => {
                let mut note = "[hook `".to_owned();
                note.append(command);
                note.append("` failed: ");
                note.append(&e);
                note.append("]");
                self.context.push(note);
                assert(text::views(self.context@) =~= context + context_of(o));
                true
            },
            Ok(reply) => {
                match &reply.context {
                    Some(t) => {
                        if !text::trim(t).as_str().is_empty() {
                            self.context.push(t.clone());
                        }
                    },
                    None => {},
                }
                assert(text::views(self.context@) =~= context + context_of(o));
                if self.event.can_block() && (is_text(&reply.decision, "deny") || is_text(
                    &reply.decision,
                    "block",
                )) {
                    self.denied = Some(
                        match reply.reason {
                            Some(t) => t,
                            None => {
                                let mut s = "blocked by hook `".to_owned();
                                s.append(command);
                                s.append("`");
                                s
                            },
                        },
                    );
                    return false;
                }
                if is_text(&reply.decision, "allow") || is_text(&reply.decision, "approve") {
                    self.allow_reason = Some(
                        match reply.reason {
                            Some(t) => t,
                            None => {
                                let mut s = "approved by hook `".to_owned();
                                s.append(command);
                                s.append("`");
                                s
                            },
                        },
                    );
                }
                true
            },
        }
    }

    /// What the hooks decided together.
    pub fn finish(self) -> (r: HookDecision)
        requires
            self.wf(),
        ensures
            r@ == collective(self.event, self.outcomes@),
    {
        match self.denied {
            Some(reason) => HookDecision::Deny { reason },
            None => match self.allow_reason {
                Some(reason) => HookDecision::Allow { reason },
                None => HookDecision::Proceed { context: self.context },
            },
        }
    }
}

/// The first veto wins, whatever the hooks after it say.
pub proof fn law_first_veto_wins(event: HookEvent, outcomes: Seq<OutcomeView>, i: int)
    requires
        0 <= i < outcomes.len(),
        veto_of(event, outcomes[i]) is Some,
        forall|j: int| 0 <= j < i ==> veto_of(event, #[trigger] outcomes[j]) is None,
    ensures
        collective(event, outcomes) == HookView::Deny(veto_of(event, outcomes[i])->0),
    decreases outcomes.len(),
{
    if i < outcomes.len() - 1 {
        law_first_veto_wins(event, outcomes.drop_last(), i);
    } else {
        lemma_no_veto(event, outcomes.drop_last());
    }
}

proof fn lemma_no_veto(event: HookEvent, outcomes: Seq<OutcomeView>)
    requires
        forall|j: int| 0 <= j < outcomes.len() ==> veto_of(event, #[trigger] outcomes[j]) is None,
    ensures
        gathered(event, outcomes) is Ok,
    decreases outcomes.len(),
{
    if outcomes.len() > 0 {
        lemma_no_veto(event, outcomes.drop_last());
        assert(veto_of(event, outcomes[outcomes.len() - 1]) is None);
    }
}

/// Only an event before a tool runs can be blocked.
pub proof fn law_only_pre_tool_use_blocks(event: HookEvent, outcomes: Seq<OutcomeView>)
    requires
        event != HookEvent::PreToolUse,
    ensures
        !(collective(event, outcomes) is Deny),
{
    lemma_no_veto(event, outcomes);
}

/// Nothing is approved unless some hook explicitly approves: where all of them
/// fail or say nothing, the normal permission path is taken.
pub proof fn law_approval_is_explicit(event: HookEvent, outcomes: Seq<OutcomeView>)
    requires
        forall|j: int| 0 <= j < outcomes.len() ==> approval_of(#[trigger] outcomes[j]) is None,
    ensures
        !(collective(event, outcomes) is Allow),
    decreases outcomes.len(),
{
    if outcomes.len() > 0 {
        law_approval_is_explicit(event, outcomes.drop_last());
        assert(approval_of(outcomes[outcomes.len() - 1]) is None);
    }
}

} // verus!
