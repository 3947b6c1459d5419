//! The `task` tool: hands a job to a subagent and returns its final answer.
//!
//! The point is context isolation: a search that reads thirty files to answer
//! one question should not leave them in the parent's context. A subagent's
//! tools are a subset of the parent's, it cannot spawn subagents, and each of
//! its calls passes the permission engine.
use vstd::prelude::*;
use vstd::string::StringExecFns;
use std::sync::Arc;
use crate::agent::calls::{
    call_summary, is_parsed, primary, primary_argument, result_text, summarize, OpenCalls,
    PermissionResponse, PreparedCall,
};
use crate::agent::subagent::{copy_definitions, definition_views, SubagentDefinition};
use crate::agent::{are_options, options_for, Agent, PermissionRequest};
use crate::api::client::RequestOptions;
use crate::api::types::{
    call_views, calls_tools, message_views, text_message, tool_message, CallView, Completion,
    Message, Role, ToolCall,
};
use crate::config::{Config, PermissionMode};
use crate::json::{str_field, Json};
use crate::permissions::{
    any_covers, candidates, decided, law_deny_is_final, malformed, parsed_rules, Decision,
    DecisionView, EngineView, PermissionEngine,
};
use crate::text;
use crate::tools::fs::is_failure;
use crate::tools::schema::{is_schema, param};
use crate::tools::{
    object_schema, prop, tool_from, ToolInfo, ToolKind, ToolOutcome, ToolRegistry,
};

verus! {

/// Maximum tool round trips inside one subagent run.
pub const SUBAGENT_TOOL_LIMIT: u32 = 30;

pub const TASK_DESCRIPTION: &'static str = "Delegate a self-contained job to a subagent. Use it when the work would fill this conversation with intermediate output that you do not need to keep — a broad search, an audit, a survey. The subagent returns only its final answer.";

pub const SUBAGENT_BRIEF: &'static str = ". You cannot ask questions: finish the task and report what you found. Your final message is the entire answer the caller receives, so make it complete and self-contained.";

/// The `task` tool.
pub struct TaskTool {
    pub definitions: Vec<SubagentDefinition>,
    /// The parent's tools. A subagent gets a subset of these, never more.
    pub parent_tools: ToolRegistry,
    /// Permission checks for the subagent's own tool calls. It shares the
    /// parent's mode, so plan mode and every switch apply to delegated work too.
    pub permissions: PermissionEngine,
    /// Whether the user can be asked about a delegated call. If not, anything
    /// that would prompt is refused instead.
    pub can_ask: bool,
}

/// The names of subagents.
pub open spec fn agent_names(definitions: Seq<SubagentDefinition>) -> Seq<Seq<char>> {
    definitions.map_values(|d: SubagentDefinition| d.name@)
}

/// The first definition of a name, at or after `from`.
pub open spec fn definition_from(
    definitions: Seq<SubagentDefinition>,
    name: Seq<char>,
    from: int,
) -> Option<int>
    decreases definitions.len() - from,
{
    if from < 0 || from >= definitions.len() {
        None
    } else if definitions[from].name@ == name {
        Some(from)
    } else {
        definition_from(definitions, name, from + 1)
    }
}

/// The tools of a subagent: those that its definition names among the parent's,
/// and never `task`, so that subagents cannot spawn subagents.
pub open spec fn subagent_tools(
    parent: Seq<Arc<ToolInfo>>,
    allowed: Option<Seq<Seq<char>>>,
) -> Seq<Arc<ToolInfo>> {
    let granted = match allowed {
        Some(names) => parent.filter(|t: Arc<ToolInfo>| names.contains(t.name@)),
        None => parent,
    };
    granted.filter(|t: Arc<ToolInfo>| t.name@ != "task"@)
}

fn names_of(definitions: &Vec<SubagentDefinition>) -> (r: Vec<String>)
    ensures
        text::views(r@) == agent_names(definitions@),
{
    let mut out: Vec<String> = Vec::new();
    let mut i: usize = 0;
    assert(text::views(out@) =~= agent_names(definitions@).take(0));
    while i < definitions.len()
        invariant
            i <= definitions.len(),
            text::views(out@) == agent_names(definitions@).take(i as int),
        decreases definitions.len() - i,
    {
        let ghost before = text::views(out@);
        out.push(definitions[i].name.clone());
        assert(text::views(out@) =~= before.push(agent_names(definitions@)[i as int]));
        i += 1;
        assert(text::views(out@) =~= agent_names(definitions@).take(i as int));
    }
    assert(agent_names(definitions@).take(definitions@.len() as int) =~= agent_names(
        definitions@,
    ));
    out
}

/// Whether a tool is the `task` tool for some subagents.
pub open spec fn is_task_tool(t: ToolInfo, definitions: Seq<SubagentDefinition>) -> bool {
    &&& t.name@ == "task"@
    &&& t.kind == ToolKind::Execute
    &&& t.description@ == TASK_DESCRIPTION@
    &&& is_schema(
        *t.parameters,
        seq![
            param(
                "agent"@,
                "string"@,
                "Which subagent to use. Available: "@ + text::joined(
                    agent_names(definitions),
                    ", "@,
                ),
            ),
            param(
                "prompt"@,
                "string"@,
                "The complete task. The subagent cannot see this conversation, so include every detail it needs."@,
            ),
        ],
        seq!["agent"@, "prompt"@],
    )
}

/// The `task` tool as it is advertised, with the subagents it can use.
pub fn task_info(definitions: &Vec<SubagentDefinition>) -> (r: ToolInfo)
    ensures
        is_task_tool(r, definitions@),
{
    let mut which = "Which subagent to use. Available: ".to_owned();
    which.append(&text::join(&names_of(definitions), ", "));
    let mut props: Vec<(String, Json)> = Vec::new();
    props.push(("agent".to_owned(), prop("string", &which)));
    props.push(
        (
            "prompt".to_owned(),
            prop(
                "string",
                "The complete task. The subagent cannot see this conversation, so include every detail it needs.",
            ),
        ),
    );
    let mut required: Vec<String> = Vec::new();
    required.push("agent".to_owned());
    required.push("prompt".to_owned());
    assert(props@[0].0@ == "agent"@);
    let schema = object_schema(props, &required);
    ToolInfo {
        name: "task".to_owned(),
        description: TASK_DESCRIPTION.to_owned(),
        parameters: Arc::new(schema),
        kind: ToolKind::Execute,
    }
}

/// Register `task` when at least one subagent is defined: advertising a
/// delegation tool with nothing to delegate to just invites a wasted turn.
pub fn register_if_available(registry: &mut ToolRegistry, definitions: &Vec<SubagentDefinition>)
    requires
        old(registry).wf(),
    ensures
        final(registry).wf(),
        definitions@.len() == 0 ==> final(registry).tools == old(registry).tools,
        definitions@.len() > 0 ==> exists|t: Arc<ToolInfo>|
            is_task_tool(*t, definitions@) && final(registry).tools@
                == #[trigger] crate::tools::registered(old(registry).tools@, t),
{
    if definitions.len() == 0 {
        return;
    }
    let t = Arc::new(task_info(definitions));
    registry.register(t);
    assert(is_task_tool(*t, definitions@) && registry.tools@ == crate::tools::registered(
        old(registry).tools@,
        t,
    ));
}

/// A subagent at work.
#[derive(Debug)]
pub struct TaskRun {
    pub agent: String,
    pub messages: Vec<Message>,
    pub tools: ToolRegistry,
    pub options: RequestOptions,
    pub iterations: u32,
}

/// What a subagent is told before it starts.
pub open spec fn brief(prompt: Seq<char>, workspace: Seq<char>) -> Seq<char> {
    prompt + "\n\nYou are running as a subagent of grok-cli in "@ + workspace + SUBAGENT_BRIEF@
}

/// Whether `run` is how a subagent starts on a job.
pub open spec fn is_start(
    run: TaskRun,
    d: SubagentDefinition,
    parent: Seq<Arc<ToolInfo>>,
    config: Config,
    agent: Seq<char>,
    job: Seq<char>,
) -> bool {
    &&& run.agent@ == agent
    &&& run.tools.tools@ == subagent_tools(parent, d@.tools)
    &&& are_options(
        run.options,
        match d@.model {
            Some(m) => m,
            None => config.model@,
        },
        config,
    )
    &&& message_views(run.messages@) == seq![
        text_message(Role::System, brief(d@.prompt, config.workspace@)),
        text_message(Role::User, job),
    ]
    &&& run.iterations == 0
    &&& run.tools.wf()
}

/// What is said of a subagent that does not exist.
pub open spec fn no_subagent(name: Seq<char>, names: Seq<Seq<char>>) -> Seq<char> {
    "no subagent named `"@ + name + "`. Available: "@ + (if names.len() == 0 {
        "none defined"@
    } else {
        text::joined(names, ", "@)
    })
}

/// Whether a delegated call may run.
#[derive(Debug)]
pub enum Authorization {
    Allowed,
    /// It may not: what the subagent sees as its result.
    Refused(String),
    /// The user is to be asked.
    Ask(PermissionRequest),
}

/// Whether `r` is the decision on a delegated call.
pub open spec fn is_authorization(
    r: Authorization,
    decision: DecisionView,
    can_ask: bool,
    agent: Seq<char>,
    p: PreparedCall,
) -> bool {
    match decision {
        DecisionView::Allow(_) => r is Allowed,
        DecisionView::Deny(reason) => r matches Authorization::Refused(s) && s@
            == "Tool call refused: "@ + reason + ". Report this back rather than retrying."@,
        DecisionView::Ask => if can_ask {
            &&& r matches Authorization::Ask(q)
            &&& q.tool_name@ == p.name@
            &&& q.summary@ == "["@ + agent + "] "@ + p.summary@
            &&& q.argument@ == p.argument@
            &&& q.preview is None
        } else {
            r matches Authorization::Refused(s) && s@ == "Tool call refused: `"@ + p.name@
                + "` needs approval, and this run cannot prompt. Report what you wanted to do and why."@
        },
    }
}

pub const NOBODY: &'static str = "Tool call refused: nobody could be asked.";

pub const USER_DECLINED: &'static str = "Tool call refused: the user declined. Report what you wanted to do instead of retrying.";

impl TaskTool {
    pub open spec fn wf(&self) -> bool {
        self.parent_tools.wf() && self.permissions.wf()
    }

    pub fn new(
        definitions: Vec<SubagentDefinition>,
        parent_tools: ToolRegistry,
        permissions: PermissionEngine,
        can_ask: bool,
    ) -> (r: Self)
        ensures
            r.definitions == definitions,
            r.parent_tools == parent_tools,
            r.permissions == permissions,
            r.can_ask == can_ask,
    {
        TaskTool { definitions, parent_tools, permissions, can_ask }
    }

    /// The `task` tool of an agent. It does not hold itself, it shares the
    /// agent's mode, so that plan mode and any later switch govern delegated work
    /// too, and it shares none of the approvals given so far.
    pub fn of(agent: &Agent, can_ask: bool) -> (r: Self)
        requires
            agent.wf(),
        ensures
            r.wf(),
            definition_views(r.definitions@) == definition_views(agent.subagents@),
            r.parent_tools.tools@ == agent.tools.tools@.filter(
                |t: Arc<ToolInfo>| t.name@ != "task"@,
            ),
            r.permissions@.allow == parsed_rules(text::views(agent.config.permissions.allow@)),
            r.permissions@.deny == parsed_rules(text::views(agent.config.permissions.deny@)),
            r.permissions@.ask == parsed_rules(text::views(agent.config.permissions.ask@)),
            r.permissions@.grants.len() == 0,
            text::views(r.permissions.invalid@) == malformed(
                text::views(agent.config.permissions.allow@),
            ) + malformed(text::views(agent.config.permissions.deny@)) + malformed(
                text::views(agent.config.permissions.ask@),
            ),
            r.permissions.mode == agent.permissions.mode,
            r.can_ask == can_ask,
    {
        TaskTool {
            definitions: copy_definitions(&agent.subagents),
            parent_tools: agent.tools.without("task"),
            permissions: PermissionEngine::sharing_mode(
                &agent.config.permissions,
                agent.permissions.shared_mode(),
            ),
            can_ask,
        }
    }

    fn find(&self, name: &str) -> (r: Option<usize>)
        ensures
            match r {
                Some(i) => i < self.definitions@.len() && definition_from(
                    self.definitions@,
                    name@,
                    0,
                ) == Some(i as int),
                None => definition_from(self.definitions@, name@, 0) is None,
            },
    {
        let mut i: usize = 0;
        while i < self.definitions.len()
            invariant
                i <= self.definitions.len(),
                definition_from(self.definitions@, name@, 0) == definition_from(
                    self.definitions@,
                    name@,
                    i as int,
                ),
            decreases self.definitions.len() - i,
        {
            if text::same(&self.definitions[i].name, name) {
                return Some(i);
            }
            i += 1;
        }
        None
    }

    /// The tools of a subagent.
    fn tools_for(&self, definition: &SubagentDefinition) -> (r: ToolRegistry)
        requires
            self.wf(),
        ensures
            r.wf(),
            r.tools@ == subagent_tools(self.parent_tools.tools@, definition@.tools),
    {
        let granted = match &definition.tools {
            Some(allowed) => {
                let g = self.parent_tools.subset(allowed);
                g
            },
            None => self.parent_tools.clone(),
        };
        granted.without("task")
    }

    /// Starts a subagent on the job that a call describes.
    pub fn start(&self, config: &Config, args: &Json) -> (r: Result<TaskRun, ToolOutcome>)
        requires
            self.wf(),
        ensures
            match (str_field(*args, "agent"@), str_field(*args, "prompt"@)) {
                (None, _) => r matches Err(o) && is_failure(
                    o,
                    "missing required string argument `agent`"@,
                ),
                (Some(_), None) => r matches Err(o) && is_failure(
                    o,
                    "missing required string argument `prompt`"@,
                ),
                (Some(agent), Some(job)) => match definition_from(self.definitions@, agent, 0) {
                    None => r matches Err(o) && is_failure(
                        o,
                        no_subagent(agent, agent_names(self.definitions@)),
                    ),
                    Some(i) => r matches Ok(run) && is_start(
                        run,
                        self.definitions@[i],
                        self.parent_tools.tools@,
                        *config,
                        agent,
                        job,
                    ),
                },
            },
    {
        let agent = match args.get_str("agent") {
            Some(a) => a,
            None => {
                return Err(ToolOutcome::error("missing required string argument `agent`"));
            },
        };
        let job = match args.get_str("prompt") {
            Some(p) => p,
            None => {
                return Err(ToolOutcome::error("missing required string argument `prompt`"));
            },
        };
        let index: usize = match self.find(&agent) {
            Some(i) => i,
            None => {
                let names = names_of(&self.definitions);
                assert(agent_names(self.definitions@).len() == names@.len());
                let mut e = "no subagent named `".to_owned();
                e.append(&agent);
                e.append("`. Available: ");
                if names.len() == 0 {
                    e.append("none defined");
                } else {
                    e.append(&text::join(&names, ", "));
                }
                return Err(ToolOutcome::error(&e));
            },
        };
        let definition = &self.definitions[index];
        let tools = self.tools_for(definition);
        let options = match &definition.model {
            Some(m) => options_for(config, m),
            None => options_for(config, &config.model),
        };
        let mut system = definition.prompt.clone();
        system.append("\n\nYou are running as a subagent of grok-cli in ");
        system.append(&config.workspace);
        system.append(SUBAGENT_BRIEF);
        let mut messages: Vec<Message> = Vec::new();
        messages.push(Message::system(&system));
        messages.push(Message::user(&job));
        assert(message_views(messages@) =~= seq![
            text_message(Role::System, brief(definition@.prompt, config.workspace@)),
            text_message(Role::User, job@),
        ]);
        Ok(TaskRun { agent, messages, tools, options, iterations: 0 })
    }

    /// Permission-check one delegated call.
    pub fn authorize(&self, mode: PermissionMode, agent: &str, p: &PreparedCall) -> (r: Authorization)
        ensures
            is_authorization(
                r,
                decided(self.permissions@, mode, p.name@, p.kind, p.argument@),
                self.can_ask,
                agent@,
                *p,
            ),
    {
        match self.permissions.evaluate_in(mode, &p.name, p.kind, &p.argument) {
            Decision::Allow { .. } => Authorization::Allowed,
            Decision::Deny { reason } => {
                let mut s = "Tool call refused: ".to_owned();
                s.append(&reason);
                s.append(". Report this back rather than retrying.");
                Authorization::Refused(s)
            },
            Decision::Ask => {
                if !self.can_ask {
                    let mut s = "Tool call refused: `".to_owned();
                    s.append(&p.name);
                    s.append(
                        "` needs approval, and this run cannot prompt. Report what you wanted to do and why.",
                    );
                    return Authorization::Refused(s);
                }
                let mut summary = "[".to_owned();
                summary.append(agent);
                summary.append("] ");
                summary.append(&p.summary);
                Authorization::Ask(
                    PermissionRequest {
                        tool_name: p.name.clone(),
                        summary,
                        argument: p.argument.clone(),
                        preview: None,
                    },
                )
            },
        }
    }

    /// Takes the user's answer about a delegated call; none where nobody could
    /// be asked.
    pub fn answered(&mut self, p: &PreparedCall, answer: Option<PermissionResponse>) -> (r: Result<
        (),
        String,
    >)
        requires
            old(self).wf(),
        ensures
            final(self).wf(),
            final(self).definitions == old(self).definitions,
            final(self).parent_tools == old(self).parent_tools,
            final(self).can_ask == old(self).can_ask,
            match answer {
                None => r matches Err(s) && s@ == NOBODY@,
                Some(PermissionResponse::Reject) => r matches Err(s) && s@ == USER_DECLINED@,
                Some(_) => r is Ok,
            },
            final(self).permissions@.grants == (match answer {
                Some(a) => crate::agent::calls::grants_after(
                    old(self).permissions@,
                    p.name@,
                    p.argument@,
                    a,
                ),
                None => old(self).permissions@.grants,
            }),
            final(self).permissions@.deny == old(self).permissions@.deny,
            final(self).permissions@.allow == old(self).permissions@.allow,
            final(self).permissions@.ask == old(self).permissions@.ask,
            final(self).permissions.invalid == old(self).permissions.invalid,
            final(self).permissions.mode == old(self).permissions.mode,
    {
        match answer {
            None => Err(NOBODY.to_owned()),
            Some(PermissionResponse::Reject) => Err(USER_DECLINED.to_owned()),
            Some(PermissionResponse::Always) => {
                self.permissions.grant_for_session(&p.name, &p.argument);
                Ok(())
            },
            Some(PermissionResponse::Once) => Ok(()),
        }
    }
}

/// What follows a completion of a subagent.
#[derive(Debug)]
pub enum TaskNext {
    /// The job is done. The first text is shown as progress.
    Finished(String, ToolOutcome),
    /// Its calls are to be answered.
    Answer(OpenCalls),
}

/// The answer of a subagent, or what is said where it gave none.
pub open spec fn final_answer(agent: Seq<char>, content: Option<Seq<char>>) -> Seq<char> {
    match content {
        Some(c) => if text::trimmed(c).len() == 0 {
            "subagent `"@ + agent + "` returned no answer"@
        } else {
            c
        },
        None => "subagent `"@ + agent + "` returned no answer"@,
    }
}

/// Whether `r` is what is made of a delegated call, given what the parser makes
/// of its arguments.
pub open spec fn is_delegated(
    tools: Seq<Arc<ToolInfo>>,
    call: CallView,
    parsed: Result<Json, Seq<char>>,
    r: Result<PreparedCall, String>,
) -> bool {
    match tool_from(tools, call.name, 0) {
        None => r matches Err(s) && s@ == "unknown tool `"@ + call.name + "`"@,
        Some(i) => match parsed {
            Err(e) => r matches Err(s) && s@ == "could not parse arguments: "@ + e,
            Ok(args) => {
                &&& r matches Ok(p)
                &&& p.id@ == call.id
                &&& p.name@ == call.name
                &&& *p.args == args
                &&& p.summary@ == call_summary(call.name, args)
                &&& p.argument@ == primary(args)
                &&& p.kind == tools[i].kind
            },
        },
    }
}

impl TaskRun {
    /// No run takes more steps than it may.
    pub open spec fn wf(&self) -> bool {
        self.iterations <= SUBAGENT_TOOL_LIMIT
    }

    /// Whether the run ends before its next request.
    pub fn before_request(&mut self, cancelled: bool) -> (r: Option<ToolOutcome>)
        requires
            old(self).wf(),
        ensures
            final(self).wf(),
            final(self).messages == old(self).messages,
            final(self).tools == old(self).tools,
            final(self).agent == old(self).agent,
            final(self).options == old(self).options,
            if cancelled {
                &&& r matches Some(o) && is_failure(o, "subagent interrupted by the user"@)
                &&& final(self).iterations == old(self).iterations
            } else if old(self).iterations >= SUBAGENT_TOOL_LIMIT {
                &&& r matches Some(o) && is_failure(
                    o,
                    "subagent `"@ + old(self).agent@ + "` hit its "@ + text::decimal(
                        SUBAGENT_TOOL_LIMIT as nat,
                    ) + "-step limit without finishing"@,
                )
                &&& final(self).iterations == old(self).iterations
            } else {
                r is None && final(self).iterations == old(self).iterations + 1
            },
    {
        if cancelled {
            return Some(ToolOutcome::error("subagent interrupted by the user"));
        }
        if self.iterations >= SUBAGENT_TOOL_LIMIT {
            let mut e = "subagent `".to_owned();
            e.append(&self.agent);
            e.append("` hit its ");
            e.append(&text::number(SUBAGENT_TOOL_LIMIT as u64));
            e.append("-step limit without finishing");
            return Some(ToolOutcome::error(&e));
        }
        self.iterations += 1;
        None
    }

    /// What is reported where a request failed.
    pub fn failed(&self, error: &str) -> (r: ToolOutcome)
        ensures
            is_failure(r, "subagent `"@ + self.agent@ + "` failed: "@ + error@),
    {
        let mut e = "subagent `".to_owned();
        e.append(&self.agent);
        e.append("` failed: ");
        e.append(error);
        ToolOutcome::error(&e)
    }

    /// Takes a completion: appends its message, then come its calls, or the end
    /// of the job.
    pub fn take_completion(&mut self, completion: &Completion) -> (r: TaskNext)
        ensures
            message_views(final(self).messages@) == message_views(old(self).messages@).push(
                completion.message@,
            ),
            final(self).iterations == old(self).iterations,
            final(self).tools == old(self).tools,
            final(self).agent == old(self).agent,
            final(self).options == old(self).options,
            if calls_tools(completion.message@) {
                r matches TaskNext::Answer(open) && open.wf() && open.done == 0
                    && !open.interrupted && call_views(open.calls@)
                    == crate::agent::calls::calls_of(completion.message@)
            } else {
                &&& r matches TaskNext::Finished(progress, o)
                &&& progress@ == "finished after "@ + text::decimal(
                    old(self).iterations as nat,
                ) + " steps"@
                &&& !o.is_error
                &&& o.content@ == final_answer(old(self).agent@, completion.message@.content)
                &&& text::opt_view(o.display.summary) == Some(
                    old(self).agent@ + ", "@ + text::decimal(old(self).iterations as nat)
                        + " steps"@,
                )
                &&& o.display.path is None
                &&& o.display.diff_stats is None
                &&& o.display.diff@.len() == 0
            },
    {
        let ghost before = message_views(self.messages@);
        self.messages.push(completion.message.clone());
        assert(message_views(self.messages@) =~= before.push(completion.message@));
        match &completion.message.tool_calls {
            Some(calls) => {
                assert(call_views(calls@).len() == calls@.len());
                if calls.len() > 0 {
                    return TaskNext::Answer(OpenCalls::new(calls, false));
                }
            },
            None => {},
        }
        let steps = text::number(self.iterations as u64);
        let mut progress = "finished after ".to_owned();
        progress.append(&steps);
        progress.append(" steps");
        let answer = match &completion.message.content {
            Some(c) => c.clone(),
            None => String::new(),
        };
        let content = if text::trim(&answer).as_str().is_empty() {
            let mut s = "subagent `".to_owned();
            s.append(&self.agent);
            s.append("` returned no answer");
            s
        } else {
            answer
        };
        assert(content@ == final_answer(self.agent@, completion.message@.content)) by {
            assert(text::trimmed(Seq::<char>::empty()).len() == 0);
            if completion.message@.content is None {
                assert(answer@ =~= Seq::<char>::empty());
            }
        }
        let mut summary = self.agent.clone();
        summary.append(", ");
        summary.append(&steps);
        summary.append(" steps");
        TaskNext::Finished(progress, ToolOutcome::ok(&content).with_summary(&summary))
    }

    /// Prepares a delegated call, given what the parser makes of its arguments.
    pub fn prepare_parsed(&self, call: &ToolCall, parsed: Result<Json, String>) -> (r: Result<
        PreparedCall,
        String,
    >)
        ensures
            is_delegated(self.tools.tools@, call@, result_text(parsed), r),
    {
        let tool = match self.tools.get(&call.function.name) {
            Some(t) => t,
            None => {
                let mut s = "unknown tool `".to_owned();
                s.append(&call.function.name);
                s.append("`");
                return Err(s);
            },
        };
        let args = match parsed {
            Ok(j) => j,
            Err(e) => {
                let mut s = "could not parse arguments: ".to_owned();
                s.append(&e);
                return Err(s);
            },
        };
        let summary = summarize(&call.function.name, &args);
        let argument = primary_argument(&args);
        Ok(
            PreparedCall {
                id: call.id.clone(),
                name: call.function.name.clone(),
                args: Arc::new(args),
                summary,
                argument,
                kind: tool.kind,
            },
        )
    }

    /// Prepares a delegated call: finds its tool and reads its arguments.
    pub fn prepare(&self, call: &ToolCall) -> (r: Result<PreparedCall, String>)
        ensures
            exists|parsed: Result<Json, Seq<char>>| #[trigger]
                is_parsed(call@, parsed) && is_delegated(self.tools.tools@, call@, parsed, r),
    {
        let parsed = call.parsed_arguments();
        let ghost seen = result_text(parsed);
        assert(is_parsed(call@, seen));
        self.prepare_parsed(call, parsed)
    }

    /// What the subagent sees of a tool that ran.
    pub fn result_of(&self, name: &str, result: Result<ToolOutcome, String>) -> (r: String)
        ensures
            r@ == (match result {
                Ok(o) => o.content@,
                Err(e) => name@ + " failed: "@ + e@,
            }),
    {
        match result {
            Ok(o) => o.content,
            Err(e) => {
                let mut s = name.to_owned();
                s.append(" failed: ");
                s.append(&e);
                s
            },
        }
    }

    /// Appends the answer to the next call.
    pub fn answer_call(&mut self, open: &mut OpenCalls, content: &str)
        requires
            old(open).wf(),
            old(open).done < old(open).calls@.len(),
        ensures
            final(open).wf(),
            final(open).calls == old(open).calls,
            final(open).interrupted == old(open).interrupted,
            final(open).done == old(open).done + 1,
            message_views(final(self).messages@) == message_views(old(self).messages@).push(
                tool_message(
                    call_views(old(open).calls@)[old(open).done as int].id,
                    content@,
                ),
            ),
            final(self).iterations == old(self).iterations,
            final(self).tools == old(self).tools,
            final(self).agent == old(self).agent,
            final(self).options == old(self).options,
    {
        let ghost before = message_views(self.messages@);
        let m = open.answer(content);
        let ghost mv = m@;
        self.messages.push(m);
        assert(message_views(self.messages@) =~= before.push(mv));
    }

    /// What is shown after a round of calls.
    pub fn progress(&self) -> (r: String)
        ensures
            r@ == "step "@ + text::decimal(self.iterations as nat),
    {
        let mut s = "step ".to_owned();
        s.append(&text::number(self.iterations as u64));
        s
    }
}

proof fn lemma_filter_from(
    tools: Seq<Arc<ToolInfo>>,
    p: spec_fn(Arc<ToolInfo>) -> bool,
    t: Arc<ToolInfo>,
)
    requires
        tools.filter(p).contains(t),
    ensures
        tools.contains(t) && p(t),
{
    tools.lemma_filter_contains_rev(p, t);
    let i = choose|i: int| 0 <= i < tools.filter(p).len() && tools.filter(p)[i] == t;
    tools.lemma_filter_pred(p, i);
}

/// A subagent's tools are among its parent's: delegation is no way around a
/// restriction. It never has `task`, so subagents cannot spawn subagents.
pub proof fn law_delegation_never_widens(
    parent: Seq<Arc<ToolInfo>>,
    allowed: Option<Seq<Seq<char>>>,
    t: Arc<ToolInfo>,
)
    requires
        subagent_tools(parent, allowed).contains(t),
    ensures
        parent.contains(t),
        t.name@ != "task"@,
        allowed matches Some(names) ==> names.contains(t.name@),
{
    let granted = match allowed {
        Some(names) => parent.filter(|t: Arc<ToolInfo>| names.contains(t.name@)),
        None => parent,
    };
    lemma_filter_from(granted, |t: Arc<ToolInfo>| t.name@ != "task"@, t);
    match allowed {
        Some(names) => {
            lemma_filter_from(parent, |t: Arc<ToolInfo>| names.contains(t.name@), t);
        },
        None => {},
    }
}

/// A delegated call is held to the same rules: what they deny does not run, and
/// what they would ask about does not run without an answer.
pub proof fn law_delegated_calls_are_checked(
    r: Authorization,
    decision: DecisionView,
    can_ask: bool,
    agent: Seq<char>,
    p: PreparedCall,
)
    requires
        is_authorization(r, decision, can_ask, agent, p),
        r is Allowed,
    ensures
        decision is Allow,
{
}

/// Deny always wins, also inside subagents: where a deny rule of the
/// configuration covers a delegated call, or one of the segments of its command,
/// the call is refused in every mode, whatever else is allowed or granted.
pub proof fn law_deny_holds_inside_subagents(
    rules: Seq<Seq<char>>,
    engine: EngineView,
    mode: PermissionMode,
    r: Authorization,
    can_ask: bool,
    agent: Seq<char>,
    p: PreparedCall,
    i: int,
)
    requires
        engine.deny == parsed_rules(rules),
        0 <= i < candidates(p.name@, p.argument@).len(),
        any_covers(parsed_rules(rules), p.name@, candidates(p.name@, p.argument@)[i]),
        is_authorization(
            r,
            decided(engine, mode, p.name@, p.kind, p.argument@),
            can_ask,
            agent,
            p,
        ),
    ensures
        r is Refused,
{
    law_deny_is_final(engine, mode, p.name@, p.kind, p.argument@, i);
}

} // verus!
