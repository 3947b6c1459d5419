//! The agent: what happens between a prompt and the end of its turn.
//!
//! One user turn is a loop: append the prompt, stream a completion, and while it
//! makes tool calls, put each through hooks and permissions, run it and append
//! its result. Two invariants hold it together: every tool call gets exactly one
//! `tool` message in reply, and the assistant message is appended before them.
//!
//! The caller performs the requests, runs the tools and asks the user. What each
//! step leads to is decided here.
pub mod calls;
pub mod flow;
pub mod prompt;
pub mod subagent;
pub mod task;
pub mod turn;

use std::sync::Arc;
use vstd::prelude::*;
use vstd::string::StringExecFns;
use crate::agent::calls::{
    add_context, answered, body_of, calls_of, lemma_answered_append, lemma_answered_push,
    lemma_answered_split, lemma_answered_without_system, visible, visible_tools, with_context,
    OpenCalls, PreparedCall, Refusal,
};
use crate::agent::prompt::{build, system_prompt, Surroundings, COMPACTION_SYSTEM};
use crate::agent::subagent::{definition_views, SubagentDefinition};
use crate::api::client::{ApiClient, RequestOptions};
use crate::api::types::{
    call_views, calls_tools, clone_text, message_views, outgoing, role_name, text_message,
    usage_fits, Completion, Message, MessageView, Role, StreamEvent, Usage,
};
use crate::config::{
    compaction_point, is_threshold, model_entry, model_table, Config, PermissionMode,
};
use crate::hooks::{
    copy_hooks, event_name, same_hooks, HookDecision, HookEvent, HookPayload, HookRunner, HookView,
};
use crate::json::{bool_field, str_field, Json};
use crate::permissions::{malformed, PermissionEngine};
use crate::session::{
    after_usage, context_size, has_role, measurable, queued, system_messages, system_only,
    EntryView, Session, SessionView,
};
use crate::text;
use crate::tools::{ToolContext, ToolDisplay, ToolRegistry};
use crate::util;
use crate::util::{line_changes, DiffKind, Duration, RawChange};

verus! {

// ---------------------------------------------------------------------------
// What the agent tells its driver
// ---------------------------------------------------------------------------

/// Everything the agent tells its driver about what it is doing.
#[derive(Debug)]
pub enum AgentEvent {
    /// A chunk of assistant text.
    Text(String),
    /// A chunk of reasoning text, for models that emit it.
    Reasoning(String),
    /// A tool is about to run.
    ToolStarted { id: String, name: String, summary: String },
    /// A tool finished.
    ToolFinished {
        id: String,
        name: String,
        outcome_summary: Option<String>,
        display: ToolDisplay,
        is_error: bool,
        duration: Duration,
    },
    /// A tool call was refused, with the reason given to the model.
    ToolDenied { id: String, name: String, reason: String },
    /// Token accounting for one API round trip.
    Usage(Usage),
    /// Context was compacted; `summary` replaced `dropped` messages.
    Compacted { dropped: usize, summary: String },
    /// A subagent produced progress worth showing.
    SubagentProgress { agent: String, text: String },
    /// A non-fatal problem worth surfacing (hook failure, MCP disconnect).
    Warning(String),
    /// The turn ended.
    TurnComplete { stop_reason: StopReason },
}

/// Why a turn ended.
#[derive(Debug, PartialEq, Eq)]
pub enum StopReason {
    /// The model finished its answer.
    Complete,
    /// The user interrupted.
    Interrupted,
    /// The per-turn tool budget was exhausted — almost always a loop.
    ToolLimitReached { limit: u32 },
    /// The turn failed.
    Error(String),
}

/// A reason to stop, as text.
pub enum StopView {
    Complete,
    Interrupted,
    ToolLimitReached(u32),
    Error(Seq<char>),
}

impl View for StopReason {
    type V = StopView;

    open spec fn view(&self) -> StopView {
        match *self {
            StopReason::Complete => StopView::Complete,
            StopReason::Interrupted => StopView::Interrupted,
            StopReason::ToolLimitReached { limit } => StopView::ToolLimitReached(limit),
            StopReason::Error(e) => StopView::Error(e@),
        }
    }
}

impl Default for StopReason {
    fn default() -> (r: Self)
        ensures
            r@ == StopView::Complete,
    {
        StopReason::Complete
    }
}

/// A pending approval, handed to the driver so it can ask the human.
#[derive(Debug)]
pub struct PermissionRequest {
    pub tool_name: String,
    pub summary: String,
    /// The argument the decision is about — the command, or the path.
    pub argument: String,
    /// A diff preview when the tool is an edit, so the user approves a change
    /// rather than a filename.
    pub preview: Option<String>,
}

/// What the driver is shown of a piece of a streamed completion. Tool calls are
/// announced when they actually run, so that the transcript's order is the
/// order of execution.
pub fn forwarded(event: StreamEvent) -> (r: Option<AgentEvent>)
    ensures
        match event {
            StreamEvent::Text(t) => r == Some(AgentEvent::Text(t)),
            StreamEvent::Reasoning(t) => r == Some(AgentEvent::Reasoning(t)),
            _ => r is None,
        },
{
    match event {
        StreamEvent::Text(t) => Some(AgentEvent::Text(t)),
        StreamEvent::Reasoning(t) => Some(AgentEvent::Reasoning(t)),
        _ => None,
    }
}

// ---------------------------------------------------------------------------
// The agent
// ---------------------------------------------------------------------------

/// The agent. Owns the conversation and everything needed to advance it.
pub struct Agent {
    pub config: Config,
    pub session: Session,
    pub permissions: PermissionEngine,
    pub tools: ToolRegistry,
    pub hooks: HookRunner,
    pub subagents: Vec<SubagentDefinition>,
    pub client: ApiClient,
    pub tool_context: ToolContext,
}

/// A conversation with its system prompt. One that is there is replaced.
pub open spec fn with_system(messages: Seq<MessageView>, prompt: Seq<char>) -> Seq<MessageView> {
    let m = text_message(Role::System, prompt);
    if messages.len() > 0 && has_role(messages[0], Role::System) {
        messages.update(0, m)
    } else {
        seq![m] + messages
    }
}

/// The options of the agent's requests.
pub open spec fn are_options(r: RequestOptions, model: Seq<char>, config: Config) -> bool {
    &&& r.model@ == model
    &&& r.max_tokens == config.max_tokens
    &&& r.temperature == config.temperature
    &&& text::opt_view(r.reasoning_effort) == text::opt_view(config.reasoning_effort)
}

/// The options of requests for a model.
pub fn options_for(config: &Config, model: &str) -> (r: RequestOptions)
    ensures
        are_options(r, model@, *config),
{
    RequestOptions {
        model: model.to_owned(),
        max_tokens: config.max_tokens,
        temperature: config.temperature,
        reasoning_effort: clone_text(&config.reasoning_effort),
    }
}

impl Agent {
    pub open spec fn wf(&self) -> bool {
        &&& self.config.wf()
        &&& self.tools.wf()
        &&& self.permissions.wf()
        &&& self.hooks.wf()
        &&& self.tool_context.wf()
    }

    /// An agent that runs under a configuration.
    pub fn new(
        config: Config,
        session: Session,
        tools: ToolRegistry,
        subagents: Vec<SubagentDefinition>,
    ) -> (r: Self)
        requires
            config.wf(),
            tools.wf(),
        ensures
            r.wf(),
            r.session == session,
            r.tools == tools,
            r.subagents == subagents,
            r.config == config,
            same_hooks(r.hooks.hooks@, config.hooks@),
            r.hooks.session_id@ == session.id@,
            r.hooks.workspace@ == config.workspace@,
            r.client.api_key@ == config.api_key@,
            r.client.base_url@ == config.base_url@,
            r.client.max_retries == 3,
            r.permissions@.allow == crate::permissions::parsed_rules(
                text::views(config.permissions.allow@),
            ),
            r.permissions@.deny == crate::permissions::parsed_rules(
                text::views(config.permissions.deny@),
            ),
            r.permissions@.ask == crate::permissions::parsed_rules(
                text::views(config.permissions.ask@),
            ),
            r.permissions@.grants.len() == 0,
            text::views(r.permissions.invalid@) == malformed(
                text::views(config.permissions.allow@),
            ) + malformed(text::views(config.permissions.deny@)) + malformed(
                text::views(config.permissions.ask@),
            ),
            r.tool_context.workspace@ == config.workspace@,
            r.tool_context.read_files@ == Map::<Seq<char>, i128>::empty(),
            r.tool_context.todos@.len() == 0,
    {
        let client = ApiClient::new(&config.api_key, &config.base_url);
        let permissions = PermissionEngine::from_config(&config);
        let hooks = HookRunner::new(copy_hooks(&config.hooks), &session.id, &config.workspace);
        let tool_context = ToolContext::new(&config.workspace);
        Agent { config, session, permissions, tools, hooks, subagents, client, tool_context }
    }

    /// The options of the agent's requests.
    pub fn request_options(&self) -> (r: RequestOptions)
        ensures
            are_options(r, self.session.model@, self.config),
    {
        options_for(&self.config, &self.session.model)
    }

    /// Install the system prompt, replacing any previous one. It speaks of the
    /// tools and the mode that are in force.
    pub fn refresh_system_prompt(
        &mut self,
        mode: PermissionMode,
        extra_context: &Vec<String>,
        surroundings: &Surroundings,
    )
        requires
            old(self).wf(),
        ensures
            final(self).wf(),
            *final(self) == (Agent {
                config: Config { permission_mode: mode, ..old(self).config },
                session: final(self).session,
                ..*old(self)
            }),
            final(self).session@ == (SessionView {
                messages: with_system(
                    old(self).session@.messages,
                    system_prompt(
                        final(self).config,
                        visible(old(self).tools.tools@, mode),
                        definition_views(old(self).subagents@),
                        text::views(extra_context@),
                        *surroundings,
                    ),
                ),
                ..old(self).session@
            }),
            final(self).session.path == old(self).session.path,
            final(self).session.persistence_error == old(self).session.persistence_error,
            final(self).session.pending == old(self).session.pending,
    {
        self.config.permission_mode = mode;
        let seen = visible_tools(&self.tools, mode);
        let prompt = build(&self.config, &seen, &self.subagents, extra_context, surroundings);
        let system = Message::system(&prompt);
        let ghost before = self.session@.messages;
        let ghost sv = system@;
        assert(before.len() == self.session.messages@.len());
        let replace = if self.session.messages.len() > 0 {
            assert(before[0] == self.session.messages@[0]@);
            self.session.messages[0].is_role(Role::System)
        } else {
            false
        };
        if replace {
            self.session.messages.set(0, system);
            assert(self.session@.messages =~= before.update(0, sv));
        } else {
            self.session.messages.insert(0, system);
            assert(self.session@.messages =~= seq![sv] + before);
        }
    }

    /// Which tools are visible to the model in a mode.
    pub fn visible_tools(&self, mode: PermissionMode) -> (r: ToolRegistry)
        requires
            self.wf(),
        ensures
            r.wf(),
            r.tools@ == visible(self.tools.tools@, mode),
    {
        visible_tools(&self.tools, mode)
    }

    /// Whether the conversation is close enough to the context limit to compact.
    pub fn needs_compaction(&self) -> (r: bool)
        requires
            measurable(self.session@),
            is_threshold(self.config.auto_compact_threshold),
        ensures
            r == (context_size(self.session@) >= compaction_point(
                model_entry(model_table(), self.config.model@).1 as nat,
                self.config.auto_compact_threshold,
            )),
    {
        self.session.estimated_context_tokens() >= self.config.compact_at()
    }

    fn payload(&self, event: HookEvent) -> (r: HookPayload)
        ensures
            is_payload(r, event, *self),
            r.tool_name is None,
            r.tool_input is None,
            r.tool_output is None,
            r.prompt is None,
    {
        HookPayload {
            event: event.as_str().to_owned(),
            session_id: self.session.id.clone(),
            cwd: self.config.workspace.clone(),
            tool_name: None,
            tool_input: None,
            tool_output: None,
            prompt: None,
        }
    }

    /// What hooks are told when a session starts.
    pub fn start_payload(&self) -> (r: HookPayload)
        ensures
            is_payload(r, HookEvent::SessionStart, *self),
            r.tool_name is None,
            r.tool_input is None,
            r.tool_output is None,
            r.prompt is None,
    {
        self.payload(HookEvent::SessionStart)
    }

    /// What hooks are told of a prompt.
    pub fn prompt_payload(&self, prompt: &str) -> (r: HookPayload)
        ensures
            is_payload(r, HookEvent::UserPromptSubmit, *self),
            r.tool_name is None,
            r.tool_input is None,
            r.tool_output is None,
            text::opt_view(r.prompt) == Some(prompt@),
    {
        let mut p = self.payload(HookEvent::UserPromptSubmit);
        p.prompt = Some(prompt.to_owned());
        p
    }

    /// What hooks are told before a tool runs.
    pub fn before_call(&self, call: &PreparedCall) -> (r: HookPayload)
        ensures
            is_payload(r, HookEvent::PreToolUse, *self),
            text::opt_view(r.tool_name) == Some(call.name@),
            r.tool_input == Some(call.args),
            r.tool_output is None,
            r.prompt is None,
    {
        let mut p = self.payload(HookEvent::PreToolUse);
        p.tool_name = Some(call.name.clone());
        p.tool_input = Some(call.args.clone());
        p
    }

    /// What hooks are told after a tool ran.
    pub fn after_call(&self, call: &PreparedCall, content: &str) -> (r: HookPayload)
        ensures
            is_payload(r, HookEvent::PostToolUse, *self),
            text::opt_view(r.tool_name) == Some(call.name@),
            r.tool_input == Some(call.args),
            text::opt_view(r.tool_output) == Some(util::truncated(content@, 4096)),
            r.prompt is None,
    {
        let mut p = self.payload(HookEvent::PostToolUse);
        p.tool_name = Some(call.name.clone());
        p.tool_input = Some(call.args.clone());
        p.tool_output = Some(util::truncate_text(content, 4096));
        p
    }

    /// What hooks are told when a turn ends.
    pub fn stop_payload(&self) -> (r: HookPayload)
        ensures
            is_payload(r, HookEvent::Stop, *self),
            r.tool_name is None,
            r.tool_input is None,
            r.tool_output is None,
            r.prompt is None,
    {
        self.payload(HookEvent::Stop)
    }

    /// Begins a turn, once the hooks have spoken: they may enrich the prompt, or
    /// end the turn.
    pub fn begin_turn(&mut self, input: &str, hook: &HookDecision) -> (r: Option<StopReason>)
        ensures
            match hook@ {
                HookView::Deny(reason) => {
                    &&& r matches Some(s) && s@ == StopView::Error(reason)
                    &&& final(self).session == old(self).session
                },
                _ => {
                    &&& r is None
                    &&& final(self).session@ == (SessionView {
                        messages: old(self).session@.messages.push(
                            text_message(Role::User, with_context(input@, hook@)),
                        ),
                        ..old(self).session@
                    })
                    &&& queued(
                        old(self).session,
                        final(self).session,
                        |at: Seq<char>| EntryView::Message {
                            at,
                            message: text_message(Role::User, with_context(input@, hook@)),
                        },
                    )
                },
            },
            final(self).session.path == old(self).session.path,
            final(self).session.persistence_error == old(self).session.persistence_error,
            *final(self) == (Agent { session: final(self).session, ..*old(self) }),
            old(self).wf() ==> final(self).wf(),
    {
        match hook {
            HookDecision::Deny { reason } => {
                return Some(StopReason::Error(reason.clone()));
            },
            _ => {},
        }
        let prompt = add_context(input, hook);
        self.session.push(Message::user(&prompt));
        None
    }

    /// Takes a completion: counts its usage and appends its message, before
    /// anything else. Then come its calls, or the end of the turn.
    pub fn take_completion(&mut self, completion: &Completion, cancelled: bool) -> (r: Next)
        requires
            usage_fits(old(self).session.usage, completion.usage),
        ensures
            final(self).session@ == (SessionView {
                messages: old(self).session@.messages.push(completion.message@),
                ..after_usage(old(self).session@, completion.usage)
            }),
            final(self).session.path == old(self).session.path,
            exists|between: Session| #[trigger]
                records(
                    old(self).session,
                    between,
                    final(self).session,
                    completion.usage,
                    completion.message@,
                ),
            if calls_tools(completion.message@) {
                r matches Next::Answer(open) && open.wf() && open.done == 0 && open.interrupted
                    == cancelled && call_views(open.calls@) == calls_of(completion.message@)
            } else {
                r matches Next::Stop(s) && s@ == (if cancelled {
                    StopView::Interrupted
                } else {
                    StopView::Complete
                })
            },
            final(self).session.persistence_error == old(self).session.persistence_error,
            *final(self) == (Agent { session: final(self).session, ..*old(self) }),
            old(self).wf() ==> final(self).wf(),
    {
        self.session.record_usage(&completion.usage);
        let ghost between = self.session;
        self.session.push(completion.message.clone());
        assert(records(
            old(self).session,
            between,
            self.session,
            completion.usage,
            completion.message@,
        ));
        match &completion.message.tool_calls {
            Some(calls) => {
                assert(call_views(calls@).len() == calls@.len());
                if calls.len() > 0 {
                    return Next::Answer(OpenCalls::new(calls, cancelled));
                }
            },
            None => {},
        }
        // A stream cancelled part-way still returns the text it had.
        if cancelled {
            Next::Stop(StopReason::Interrupted)
        } else {
            Next::Stop(StopReason::Complete)
        }
    }

    /// Appends the answer to the next call.
    pub fn answer_call(&mut self, open: &mut OpenCalls, content: &str)
        requires
            old(open).wf(),
            old(open).done < old(open).calls@.len(),
        ensures
            final(open).wf(),
            final(open).calls == old(open).calls,
            final(open).interrupted == old(open).interrupted,
            final(open).done == old(open).done + 1,
            final(self).session@ == (SessionView {
                messages: old(self).session@.messages.push(
                    crate::api::types::tool_message(
                        call_views(old(open).calls@)[old(open).done as int].id,
                        content@,
                    ),
                ),
                ..old(self).session@
            }),
            final(self).session.path == old(self).session.path,
            queued(
                old(self).session,
                final(self).session,
                |at: Seq<char>| EntryView::Message {
                    at,
                    message: crate::api::types::tool_message(
                        call_views(old(open).calls@)[old(open).done as int].id,
                        content@,
                    ),
                },
            ),
            final(self).session.persistence_error == old(self).session.persistence_error,
            *final(self) == (Agent { session: final(self).session, ..*old(self) }),
            old(self).wf() ==> final(self).wf(),
    {
        let m = open.answer(content);
        self.session.push(m);
    }
}

/// Whether the usage and the message of a completion were queued for the
/// transcript, in this order.
pub open spec fn records(
    before: Session,
    between: Session,
    after: Session,
    usage: Usage,
    message: MessageView,
) -> bool {
    &&& between.path == before.path
    &&& queued(before, between, |at: Seq<char>| EntryView::Usage { at, usage })
    &&& queued(between, after, |at: Seq<char>| EntryView::Message { at, message: outgoing(message) })
}

/// Whether a payload is about an event of an agent's session.
pub open spec fn is_payload(p: HookPayload, event: HookEvent, agent: Agent) -> bool {
    &&& p.event@ == event_name(event)
    &&& p.session_id@ == agent.session.id@
    &&& p.cwd@ == agent.config.workspace@
}

/// Refreshing the system prompt replaces it and never stacks a second one.
pub proof fn law_prompts_do_not_stack(messages: Seq<MessageView>, a: Seq<char>, b: Seq<char>)
    ensures
        with_system(with_system(messages, a), b) == with_system(messages, b),
        has_role(with_system(messages, a)[0], Role::System),
{
    let once = with_system(messages, a);
    if messages.len() > 0 && has_role(messages[0], Role::System) {
        assert(with_system(once, b) =~= with_system(messages, b));
    } else {
        assert(once[0] == text_message(Role::System, a));
        assert(with_system(once, b) =~= with_system(messages, b));
    }
}

/// Plan mode advertises no tool that mutates.
pub proof fn law_plan_mode_hides_mutation(tools: Seq<Arc<crate::tools::ToolInfo>>, i: int)
    requires
        0 <= i < visible(tools, PermissionMode::Plan).len(),
    ensures
        !crate::tools::kind_mutates(visible(tools, PermissionMode::Plan)[i].kind),
{
    tools.lemma_filter_pred(
        |t: Arc<crate::tools::ToolInfo>| !crate::tools::kind_mutates(t.kind),
        i,
    );
}

// ---------------------------------------------------------------------------
// The loop of a turn
// ---------------------------------------------------------------------------

/// What follows a completion.
#[derive(Debug)]
pub enum Next {
    /// The turn ends.
    Stop(StopReason),
    /// Its calls are to be answered.
    Answer(OpenCalls),
}

/// How far a turn has come.
#[derive(Debug)]
pub struct Turn {
    /// The requests made so far.
    pub iterations: u32,
    /// The most that a turn may make.
    pub limit: u32,
}

impl Turn {
    /// No turn makes more requests than it may.
    pub open spec fn wf(&self) -> bool {
        self.iterations <= self.limit
    }

    pub fn new(limit: u32) -> (r: Self)
        ensures
            r.wf(),
            r.iterations == 0,
            r.limit == limit,
    {
        Turn { iterations: 0, limit }
    }

    /// Whether the turn ends before its next request. A turn that quits says so:
    /// one that stops mid-task without saying so is worse than one that fails.
    pub fn before_request(&mut self, cancelled: bool) -> (r: Option<StopReason>)
        requires
            old(self).wf(),
        ensures
            final(self).wf(),
            final(self).limit == old(self).limit,
            if cancelled {
                &&& r matches Some(s) && s@ == StopView::Interrupted
                &&& final(self).iterations == old(self).iterations
            } else if old(self).iterations >= old(self).limit {
                &&& r matches Some(s) && s@ == StopView::ToolLimitReached(old(self).limit)
                &&& final(self).iterations == old(self).iterations
            } else {
                &&& r is None
                &&& final(self).iterations == old(self).iterations + 1
            },
    {
        if cancelled {
            return Some(StopReason::Interrupted);
        }
        if self.iterations >= self.limit {
            return Some(StopReason::ToolLimitReached { limit: self.limit });
        }
        self.iterations += 1;
        None
    }

    /// How the turn ends where a request failed.
    pub fn failed(&self, error: &str, cancelled: bool) -> (r: StopReason)
        ensures
            r@ == (if cancelled {
                StopView::Interrupted
            } else {
                StopView::Error(error@)
            }),
    {
        if cancelled {
            StopReason::Interrupted
        } else {
            StopReason::Error(error.to_owned())
        }
    }

    /// Whether the turn ends once all calls are answered.
    pub fn after_calls(&self, open: &OpenCalls) -> (r: Option<StopReason>)
        ensures
            if open.interrupted {
                r matches Some(s) && s@ == StopView::Interrupted
            } else {
                r is None
            },
    {
        if open.interrupted {
            Some(StopReason::Interrupted)
        } else {
            None
        }
    }
}

/// What the driver is told of a refusal.
pub fn denial_event(f: &Refusal) -> (r: AgentEvent)
    ensures
        r matches AgentEvent::ToolDenied { id, name, reason } && id@ == f.id@ && name@ == f.name@
            && reason@ == f.reason@,
{
    AgentEvent::ToolDenied {
        id: f.id.clone(),
        name: f.name.clone(),
        reason: f.reason.clone(),
    }
}

/// What the driver is told when a tool is about to run.
pub fn started_event(p: &PreparedCall) -> (r: AgentEvent)
    ensures
        r matches AgentEvent::ToolStarted { id, name, summary } && id@ == p.id@ && name@ == p.name@
            && summary@ == p.summary@,
{
    AgentEvent::ToolStarted {
        id: p.id.clone(),
        name: p.name.clone(),
        summary: p.summary.clone(),
    }
}

/// What the driver is told when a tool has run, with what it shows of its work.
pub fn finished_event(
    p: &PreparedCall,
    display: ToolDisplay,
    is_error: bool,
    duration: Duration,
) -> (r: AgentEvent)
    ensures
        ({
            &&& r matches AgentEvent::ToolFinished {
                id,
                name,
                outcome_summary,
                display: shown,
                is_error: failed,
                duration: taken,
            }
            &&& id@ == p.id@
            &&& name@ == p.name@
            &&& text::opt_view(outcome_summary) == text::opt_view(display.summary)
            &&& shown == display
            &&& failed == is_error
            &&& taken == duration
        }),
{
    AgentEvent::ToolFinished {
        id: p.id.clone(),
        name: p.name.clone(),
        outcome_summary: clone_text(&display.summary),
        display,
        is_error,
        duration,
    }
}

/// What the driver is told when compaction fails, which ends nothing.
pub fn compaction_warning(error: &str) -> (r: AgentEvent)
    ensures
        r matches AgentEvent::Warning(t) && t@ == "compaction failed: "@ + error@,
{
    let mut s = "compaction failed: ".to_owned();
    s.append(error);
    AgentEvent::Warning(s)
}

/// What the user is asked about a call.
pub fn permission_request(p: &PreparedCall, preview: Option<String>) -> (r: PermissionRequest)
    ensures
        r.tool_name@ == p.name@,
        r.summary@ == p.summary@,
        r.argument@ == p.argument@,
        r.preview == preview,
{
    PermissionRequest {
        tool_name: p.name.clone(),
        summary: p.summary.clone(),
        argument: p.argument.clone(),
        preview,
    }
}

// ---------------------------------------------------------------------------
// Previews
// ---------------------------------------------------------------------------

/// The file that a call is about, where it names one.
pub open spec fn preview_target(workspace: Seq<char>, args: Json) -> Option<Seq<char>> {
    match str_field(args, "path"@) {
        Some(p) => Some(util::resolved(workspace, p)),
        None => None,
    }
}

/// The file whose contents a preview starts from.
pub fn preview_path(workspace: &str, args: &Json) -> (r: Option<String>)
    ensures
        text::opt_view(r) == preview_target(workspace@, *args),
{
    match args.get_str("path") {
        Some(p) => Some(util::resolve(workspace, &p)),
        None => None,
    }
}

/// What a call would make of a file.
pub open spec fn proposed(tool: Seq<char>, args: Json, current: Seq<char>) -> Option<Seq<char>> {
    if str_field(args, "path"@) is None {
        None
    } else if tool == "write_file"@ {
        str_field(args, "content"@)
    } else if tool == "edit_file"@ {
        match str_field(args, "old_string"@) {
            None => None,
            Some(old) => {
                let new = match str_field(args, "new_string"@) {
                    Some(n) => n,
                    None => ""@,
                };
                if bool_field(args, "replace_all"@) == Some(true) {
                    Some(text::replaced_all(current, old, new))
                } else {
                    Some(text::replaced_first(current, old, new))
                }
            },
        }
    } else {
        None
    }
}

/// What a call would make of a file.
fn propose(tool: &str, args: &Json, current: &str) -> (r: Option<String>)
    ensures
        text::opt_view(r) == proposed(tool@, *args, current@),
{
    if args.get_str("path").is_none() {
        return None;
    }
    if text::same(tool, "write_file") {
        args.get_str("content")
    } else if text::same(tool, "edit_file") {
        let old = match args.get_str("old_string") {
            Some(o) => o,
            None => {
                return None;
            },
        };
        let new = match args.get_str("new_string") {
            Some(n) => n,
            None => "".to_owned(),
        };
        let all = match args.get_bool("replace_all") {
            Some(b) => b,
            None => false,
        };
        if all {
            Some(text::replace_all(current, &old, &new))
        } else {
            Some(text::replace_first(current, &old, &new))
        }
    } else {
        None
    }
}

/// The mark of a line in a preview.
pub open spec fn mark_of(kind: DiffKind) -> Seq<char> {
    match kind {
        DiffKind::Added => "+"@,
        DiffKind::Removed => "-"@,
        DiffKind::Context => " "@,
    }
}

/// The lines of a preview.
pub open spec fn preview_lines(changes: Seq<RawChange>) -> Seq<Seq<char>> {
    changes.map_values(|c: RawChange| mark_of(c.0) + util::without_breaks(c.3))
}

/// What the user is shown of a change, given the file as it is.
pub open spec fn preview_of(tool: Seq<char>, args: Json, current: Seq<char>) -> Option<Seq<char>> {
    match proposed(tool, args, current) {
        None => None,
        Some(new) => {
            let changes = line_changes(current, new, 3);
            if changes.len() == 0 {
                None
            } else {
                Some(text::joined(preview_lines(changes), "\n"@))
            }
        },
    }
}

/// Render a diff preview so the user approves a change, not a filename.
pub fn preview_for(tool: &str, args: &Json, current: &str) -> (r: Option<String>)
    ensures
        text::opt_view(r) == preview_of(tool@, *args, current@),
{
    let new = match propose(tool, args, current) {
        Some(n) => n,
        None => {
            return None;
        },
    };
    let lines = util::diff_lines(current, &new, 3);
    let ghost changes = line_changes(current@, new@, 3);
    if lines.len() == 0 {
        return None;
    }
    let mut out: Vec<String> = Vec::new();
    let mut i: usize = 0;
    assert(text::views(out@) =~= preview_lines(changes).take(0));
    while i < lines.len()
        invariant
            i <= lines.len(),
            lines@.len() == changes.len(),
            forall|k: int| 0 <= k < lines@.len() ==> util::renders(#[trigger] lines@[k], changes[k]),
            text::views(out@) == preview_lines(changes).take(i as int),
        decreases lines.len() - i,
    {
        assert(util::renders(lines@[i as int], changes[i as int]));
        let mut s = match lines[i].kind {
            DiffKind::Added => "+".to_owned(),
            DiffKind::Removed => "-".to_owned(),
            DiffKind::Context => " ".to_owned(),
        };
        s.append(&lines[i].text);
        let ghost before = text::views(out@);
        let ghost sv = s@;
        out.push(s);
        assert(text::views(out@) =~= before.push(sv));
        assert(preview_lines(changes)[i as int] == sv);
        i += 1;
        assert(text::views(out@) =~= preview_lines(changes).take(i as int));
    }
    assert(preview_lines(changes).take(changes.len() as int) =~= preview_lines(changes));
    Some(text::join(&out, "\n"))
}

// ---------------------------------------------------------------------------
// Compaction
// ---------------------------------------------------------------------------

/// How many of the latest messages a compaction keeps as they are. Recent
/// context is what the model is working from; summarizing it would feel like
/// amnesia.
pub const KEEP_TAIL: usize = 8;

/// The first place at or after `from` where a conversation may be cut: not
/// before the answer to a call.
pub open spec fn cut_from(body: Seq<MessageView>, from: int) -> int
    decreases body.len() - from,
{
    if from < body.len() && has_role(body[from], Role::Tool) {
        cut_from(body, from + 1)
    } else {
        from
    }
}

/// How many messages a compaction replaces, where there is enough to compact.
pub open spec fn compaction_cut(messages: Seq<MessageView>) -> Option<int> {
    let body = body_of(messages);
    if body.len() <= KEEP_TAIL {
        None
    } else {
        Some(cut_from(body, body.len() - KEEP_TAIL))
    }
}

/// The messages to be summarized, one line each.
pub open spec fn transcript(head: Seq<MessageView>) -> Seq<char>
    decreases head.len(),
{
    if head.len() == 0 {
        Seq::empty()
    } else {
        let m = head.last();
        transcript(head.drop_last()) + m.role + ": "@ + util::truncated(
            match m.content {
                Some(c) => c,
                None => ""@,
            },
            2000,
        ) + "\n"@
    }
}

/// What the model is asked for a summary.
pub open spec fn summary_request(messages: Seq<MessageView>) -> Option<Seq<MessageView>> {
    match compaction_cut(messages) {
        None => None,
        Some(cut) => Some(
            seq![
                text_message(Role::System, COMPACTION_SYSTEM@),
                text_message(
                    Role::User,
                    "Conversation to summarize:\n\n"@ + transcript(body_of(messages).take(cut)),
                ),
            ],
        ),
    }
}

/// The message that stands for what a compaction replaced.
pub open spec fn summary_message(summary: Seq<char>) -> MessageView {
    text_message(
        Role::User,
        "<summary-of-earlier-conversation>\n"@ + summary
            + "\n</summary-of-earlier-conversation>"@,
    )
}

/// A conversation after a compaction: the system prompt, the summary, and the
/// latest messages as they were.
pub open spec fn compacted(messages: Seq<MessageView>, summary: Seq<char>) -> Seq<MessageView> {
    match compaction_cut(messages) {
        None => messages,
        Some(cut) => system_only(messages).push(summary_message(summary)) + body_of(messages).skip(
            cut,
        ),
    }
}

/// The messages that are not the harness's own, copied.
fn body_messages(messages: &Vec<Message>) -> (r: Vec<Message>)
    ensures
        message_views(r@) == body_of(message_views(messages@)),
{
    let ghost all = message_views(messages@);
    let ghost keep = |m: MessageView| !has_role(m, Role::System);
    let mut out: Vec<Message> = Vec::new();
    let mut i: usize = 0;
    assert(message_views(out@) =~= Seq::<MessageView>::empty());
    proof {
        reveal(Seq::filter);
    }
    while i < messages.len()
        invariant
            i <= messages.len(),
            all == message_views(messages@),
            keep == (|m: MessageView| !has_role(m, Role::System)),
            message_views(out@) == all.take(i as int).filter(keep),
        decreases messages.len() - i,
    {
        proof {
            reveal(Seq::filter);
            assert(all.take(i + 1).drop_last() =~= all.take(i as int));
        }
        if !messages[i].is_role(Role::System) {
            let ghost before = message_views(out@);
            let m = messages[i].clone();
            let ghost mv = m@;
            out.push(m);
            assert(message_views(out@) =~= before.push(mv));
        }
        i += 1;
    }
    assert(all.take(all.len() as int) =~= all);
    out
}

/// Where the body of a conversation is cut.
fn find_cut(body: &Vec<Message>) -> (r: Option<usize>)
    ensures
        match r {
            Some(cut) => {
                &&& body@.len() > KEEP_TAIL
                &&& cut == cut_from(message_views(body@), body@.len() - KEEP_TAIL)
                &&& cut <= body@.len()
            },
            None => body@.len() <= KEEP_TAIL,
        },
{
    if body.len() <= KEEP_TAIL {
        return None;
    }
    let ghost all = message_views(body@);
    let ghost start = body@.len() - KEEP_TAIL;
    let mut cut: usize = body.len() - KEEP_TAIL;
    while cut < body.len() && body[cut].is_role(Role::Tool)
        invariant
            cut <= body.len(),
            all == message_views(body@),
            cut_from(all, start) == cut_from(all, cut as int),
        decreases body.len() - cut,
    {
        assert(all[cut as int] == body@[cut as int]@);
        cut += 1;
    }
    if cut < body.len() {
        assert(all[cut as int] == body@[cut as int]@);
    }
    Some(cut)
}

fn write_transcript(body: &Vec<Message>, cut: usize) -> (r: String)
    requires
        cut <= body@.len(),
    ensures
        r@ == transcript(message_views(body@).take(cut as int)),
{
    let ghost all = message_views(body@);
    let mut out = String::new();
    let mut i: usize = 0;
    assert(out@ =~= Seq::<char>::empty());
    while i < cut
        invariant
            i <= cut,
            cut <= body.len(),
            all == message_views(body@),
            out@ == transcript(all.take(i as int)),
        decreases cut - i,
    {
        assert(all.take(i + 1).drop_last() =~= all.take(i as int));
        assert(all[i as int] == body@[i as int]@);
        out.append(&body[i].role);
        out.append(": ");
        match &body[i].content {
            Some(c) => {
                out.append(&util::truncate_text(c, 2000));
            },
            None => {
                out.append(&util::truncate_text("", 2000));
            },
        }
        out.append("\n");
        i += 1;
    }
    out
}

/// What the model is asked for a summary, where there is enough to compact.
pub fn compaction_request(messages: &Vec<Message>) -> (r: Option<Vec<Message>>)
    ensures
        match r {
            Some(request) => summary_request(message_views(messages@)) == Some(
                message_views(request@),
            ),
            None => summary_request(message_views(messages@)) is None,
        },
{
    let body = body_messages(messages);
    assert(message_views(body@).len() == body@.len());
    match find_cut(&body) {
        None => None,
        Some(cut) => {
            let mut ask = "Conversation to summarize:\n\n".to_owned();
            ask.append(&write_transcript(&body, cut));
            let mut out: Vec<Message> = Vec::new();
            out.push(Message::system(COMPACTION_SYSTEM));
            out.push(Message::user(&ask));
            assert(message_views(out@) =~= summary_request(message_views(messages@))->0);
            Some(out)
        },
    }
}

/// The options of the request for a summary.
pub fn summary_options(agent: &Agent) -> (r: RequestOptions)
    ensures
        r.max_tokens == Some(2048u32),
        r.model@ == agent.session.model@,
        r.temperature == agent.config.temperature,
        text::opt_view(r.reasoning_effort) == text::opt_view(agent.config.reasoning_effort),
{
    let mut o = agent.request_options();
    o.max_tokens = Some(2048);
    o
}

/// Replace old history with a summary, keeping the tail intact. Returns how many
/// messages were replaced; none where there was too little to compact. An empty
/// summary is refused: it would lose what it stands for.
pub fn compact(session: &mut Session, summary: &str) -> (r: Result<Option<usize>, String>)
    ensures
        final(session).path == old(session).path,
        final(session).persistence_error == old(session).persistence_error,
        match compaction_cut(old(session)@.messages) {
            None => r == Ok::<Option<usize>, String>(None) && *final(session) == *old(session),
            Some(cut) => if text::trimmed(summary@).len() == 0 {
                &&& r matches Err(e) && e@ == "the model returned an empty summary"@
                &&& *final(session) == *old(session)
            } else {
                &&& r matches Ok(Some(n)) && n == cut
                &&& final(session)@ == (SessionView {
                    messages: compacted(old(session)@.messages, summary@),
                    reported: None,
                    ..old(session)@
                })
                &&& queued(
                    *old(session),
                    *final(session),
                    |at: Seq<char>| EntryView::Compaction {
                        at,
                        summary: summary@,
                        dropped_messages: cut as usize,
                    },
                )
            },
        },
{
    let mut body = body_messages(&session.messages);
    let ghost all = message_views(body@);
    assert(all.len() == body@.len());
    let cut: usize = match find_cut(&body) {
        None => {
            return Ok(None);
        },
        Some(c) => c,
    };
    if text::trim(summary).as_str().is_empty() {
        return Err("the model returned an empty summary".to_owned());
    }
    let mut rebuilt = system_messages(&session.messages);
    let ghost system = message_views(rebuilt@);
    let mut note = "<summary-of-earlier-conversation>\n".to_owned();
    note.append(summary);
    note.append("\n</summary-of-earlier-conversation>");
    rebuilt.push(Message::user(&note));
    assert(message_views(rebuilt@) =~= system.push(summary_message(summary@)));
    let ghost base = message_views(rebuilt@);
    let ghost tail = body@.skip(cut as int);
    let mut rest = body.split_off(cut);
    assert(rest@ =~= tail);
    rebuilt.append(&mut rest);
    assert(message_views(rebuilt@) =~= base + all.skip(cut as int));
    session.messages = rebuilt;
    let ghost mid = *session;
    session.record_compaction(summary, cut);
    Ok(Some(cut))
}

proof fn lemma_cut_from(body: Seq<MessageView>, from: int)
    requires
        0 <= from <= body.len(),
    ensures
        from <= cut_from(body, from) <= body.len(),
        cut_from(body, from) < body.len() ==> !has_role(body[cut_from(body, from)], Role::Tool),
    decreases body.len() - from,
{
    if from < body.len() && has_role(body[from], Role::Tool) {
        lemma_cut_from(body, from + 1);
    }
}

/// A compaction keeps every call answered: no answer is left without its call,
/// and no call without its answer.
pub proof fn law_compaction_keeps_calls_answered(messages: Seq<MessageView>, summary: Seq<char>)
    requires
        answered(messages),
    ensures
        answered(compacted(messages, summary)),
{
    let body = body_of(messages);
    lemma_answered_without_system(messages);
    match compaction_cut(messages) {
        None => {},
        Some(cut) => {
            lemma_cut_from(body, body.len() - KEEP_TAIL);
            lemma_answered_split(body, cut);
            let head = system_only(messages);
            if role_name(Role::User) == role_name(Role::Tool) {
                crate::api::types::law_role_names_distinct(Role::User, Role::Tool);
            }
            lemma_answered_push(head, summary_message(summary));
            lemma_answered_append(head.push(summary_message(summary)), body.skip(cut));
        },
    }
}

/// What a compaction keeps of the conversation never begins with the answer to
/// a call, and is at most the latest messages.
pub proof fn law_compaction_keeps_the_tail(messages: Seq<MessageView>)
    requires
        compaction_cut(messages) is Some,
    ensures
        ({
            let body = body_of(messages);
            let cut = compaction_cut(messages)->0;
            let tail = body.skip(cut);
            &&& 0 < cut <= body.len()
            &&& tail.len() <= KEEP_TAIL
            &&& tail.len() > 0 ==> !has_role(tail[0], Role::Tool)
        }),
{
    let body = body_of(messages);
    lemma_cut_from(body, body.len() - KEEP_TAIL);
}

} // verus!
