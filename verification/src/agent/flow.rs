//! One call of a tool, from the model's request to the answer it is owed.
//!
//! The caller runs hooks, asks the user and runs the tool. What it does next,
//! and what it tells the driver on the way, is decided here from what came of
//! the last step.
use vstd::prelude::*;
use crate::agent::calls::{
    add_context, answered_by_user, check, gate, gate_after, grants_after, hook_warnings, settled,
    warnings, with_context, Gate, GateView, PermissionResponse, PreparedCall, Refusal, RefusalView,
};
use crate::agent::{denial_event, finished_event, is_payload, started_event, Agent, AgentEvent};
use crate::config::PermissionMode;
use crate::hooks::{HookDecision, HookEvent, HookPayload, HookView};
use crate::permissions::{decided, DecisionView, PermissionEngine};
use crate::text;
use crate::tools::fs::is_failure;
use crate::tools::ToolOutcome;
use crate::util;
use crate::util::Duration;

verus! {

/// Where a call stands.
#[derive(Debug)]
pub enum Stage {
    /// Hooks are asked before the tool runs.
    Before,
    /// The user is asked.
    Approval,
    /// The tool runs.
    Running,
    /// Hooks are told what the tool answered.
    After(String),
    /// The model has its answer.
    Answered,
}

/// What is done next about a call.
#[derive(Debug)]
pub enum Action {
    RunHooks(HookEvent, HookPayload),
    AskUser,
    RunTool,
    /// What the model is told. Nothing follows.
    Answer(String),
}

/// What the driver is told, in order, and what is done next.
#[derive(Debug)]
pub struct Step {
    pub events: Vec<AgentEvent>,
    pub action: Action,
}

/// A call under way.
#[derive(Debug)]
pub struct CallFlow {
    pub call: PreparedCall,
    pub stage: Stage,
}

/// How far a call is from its answer.
pub open spec fn steps_left(stage: Stage) -> nat {
    match stage {
        Stage::Before => 4,
        Stage::Approval => 3,
        Stage::Running => 2,
        Stage::After(_) => 1,
        Stage::Answered => 0,
    }
}

/// Whether an event says that a call was refused.
pub open spec fn says_denied(e: AgentEvent, f: RefusalView) -> bool {
    e matches AgentEvent::ToolDenied { id, name, reason } && id@ == f.id && name@ == f.name
        && reason@ == f.reason
}

/// Whether an event says that a tool is about to run.
pub open spec fn says_started(e: AgentEvent, p: PreparedCall) -> bool {
    e matches AgentEvent::ToolStarted { id, name, summary } && id@ == p.id@ && name@ == p.name@
        && summary@ == p.summary@
}

/// Whether an event says what a tool came to.
pub open spec fn says_finished(
    e: AgentEvent,
    p: PreparedCall,
    o: ToolOutcome,
    taken: Duration,
) -> bool {
    &&& e matches AgentEvent::ToolFinished {
        id,
        name,
        outcome_summary,
        display,
        is_error,
        duration,
    }
    &&& id@ == p.id@
    &&& name@ == p.name@
    &&& text::opt_view(outcome_summary) == text::opt_view(o.display.summary)
    &&& display == o.display
    &&& is_error == o.is_error
    &&& duration == taken
}

/// Whether events are warnings of these texts.
pub open spec fn say_warnings(events: Seq<AgentEvent>, texts: Seq<Seq<char>>) -> bool {
    &&& events.len() == texts.len()
    &&& forall|i: int|
        0 <= i < events.len() ==> ((#[trigger] events[i]) matches AgentEvent::Warning(t) && t@
            == texts[i])
}

/// Whether a step follows from a gate that a call has come to, behind events
/// that were told before.
pub open spec fn passes(
    g: GateView,
    p: PreparedCall,
    told: Seq<AgentEvent>,
    step: Step,
    stage: Stage,
) -> bool {
    match g {
        GateView::Refused(reason, content) => {
            &&& step.events@.len() == told.len() + 1
            &&& step.events@.take(told.len() as int) == told
            &&& says_denied(
                step.events@.last(),
                RefusalView { id: p.id@, name: p.name@, reason, content },
            )
            &&& step.action matches Action::Answer(s) && s@ == content
            &&& stage is Answered
        },
        GateView::Ask => {
            &&& step.events@ == told
            &&& step.action is AskUser
            &&& stage is Approval
        },
        GateView::Run => {
            &&& step.events@.len() == told.len() + 1
            &&& step.events@.take(told.len() as int) == told
            &&& says_started(step.events@.last(), p)
            &&& step.action is RunTool
            &&& stage is Running
        },
    }
}

/// A call begins: a call that could not be prepared is answered at once, and the
/// hooks are asked about any other.
pub fn start(agent: &Agent, prepared: Result<PreparedCall, Refusal>) -> (r: (
    Option<CallFlow>,
    Step,
))
    ensures
        match prepared {
            Err(f) => {
                &&& r.0 is None
                &&& r.1.events@.len() == 1
                &&& says_denied(r.1.events@[0], f@)
                &&& r.1.action matches Action::Answer(s) && s@ == f.content@
            },
            Ok(p) => {
                &&& r.0 matches Some(flow) && flow.call == p && flow.stage is Before
                &&& r.1.events@.len() == 0
                &&& r.1.action matches Action::RunHooks(event, payload)
                &&& event == HookEvent::PreToolUse
                &&& is_payload(payload, event, *agent)
                &&& text::opt_view(payload.tool_name) == Some(p.name@)
                &&& payload.tool_input == Some(p.args)
                &&& payload.tool_output is None
                &&& payload.prompt is None
            },
        },
{
    let mut events: Vec<AgentEvent> = Vec::new();
    match prepared {
        Err(f) => {
            events.push(denial_event(&f));
            (None, Step { events, action: Action::Answer(f.content) })
        },
        Ok(p) => {
            let payload = agent.before_call(&p);
            (
                Some(CallFlow { call: p, stage: Stage::Before }),
                Step { events, action: Action::RunHooks(HookEvent::PreToolUse, payload) },
            )
        },
    }
}

impl CallFlow {
    /// Takes a gate, behind what was told before it.
    fn pass(&mut self, g: Gate, told: Vec<AgentEvent>) -> (r: Step)
        ensures
            final(self).call == old(self).call,
            forall|v: GateView| #[trigger]
                crate::agent::calls::is_gate(g, v, old(self).call) ==> passes(
                    v,
                    old(self).call,
                    told@,
                    r,
                    final(self).stage,
                ),
            r.action is Answer <==> final(self).stage is Answered,
            steps_left(final(self).stage) <= 3,
            g !is Ask ==> steps_left(final(self).stage) <= 2,
    {
        let mut events = told;
        let action = match g {
            Gate::Refused(f) => {
                events.push(denial_event(&f));
                self.stage = Stage::Answered;
                Action::Answer(f.content)
            },
            Gate::Ask => {
                self.stage = Stage::Approval;
                Action::AskUser
            },
            Gate::Run => {
                events.push(started_event(&self.call));
                self.stage = Stage::Running;
                Action::RunTool
            },
        };
        assert(events@.take(told@.len() as int) =~= told@);
        Step { events, action }
    }

    /// The hooks have spoken. Before the tool runs, they and the rules decide
    /// what comes next; behind it, they may add to the answer.
    pub fn hooks_spoke(&mut self, agent: &Agent, mode: PermissionMode, hook: &HookDecision) -> (r:
        Step)
        requires
            old(self).stage is Before || old(self).stage is After,
        ensures
            final(self).call == old(self).call,
            steps_left(final(self).stage) < steps_left(old(self).stage),
            r.action is Answer <==> final(self).stage is Answered,
            match old(self).stage {
                Stage::After(content) => {
                    &&& r.events@.len() == 0
                    &&& r.action matches Action::Answer(s) && s@ == with_context(content@, hook@)
                },
                _ => exists|told: Seq<AgentEvent>| #[trigger]
                    say_warnings(told, warnings(hook@)) && passes(
                        gate(
                            hook@,
                            decided(
                                agent.permissions@,
                                mode,
                                old(self).call.name@,
                                old(self).call.kind,
                                old(self).call.argument@,
                            ),
                        ),
                        old(self).call,
                        told,
                        r,
                        final(self).stage,
                    ),
            },
    {
        let content: Option<String> = match &self.stage {
            Stage::After(s) => Some(s.clone()),
            _ => None,
        };
        if let Some(s) = content {
            self.stage = Stage::Answered;
            return Step { events: Vec::new(), action: Action::Answer(add_context(&s, hook)) };
        }
        let texts = hook_warnings(hook);
        let mut told: Vec<AgentEvent> = Vec::new();
        let mut i: usize = 0;
        while i < texts.len()
            invariant
                i <= texts.len(),
                told@.len() == i,
                forall|k: int|
                    0 <= k < i ==> ((#[trigger] told@[k]) matches AgentEvent::Warning(t) && t@
                        == texts@[k]@),
            decreases texts.len() - i,
        {
            told.push(AgentEvent::Warning(texts[i].clone()));
            i += 1;
        }
        let ghost before = told@;
        assert(say_warnings(before, warnings(hook@))) by {
            assert(text::views(texts@).len() == texts@.len());
            assert forall|k: int| 0 <= k < before.len() implies ((#[trigger] before[k]) matches
                AgentEvent::Warning(t) && t@ == warnings(hook@)[k]) by {
                assert(text::views(texts@)[k] == texts@[k]@);
            }
        }
        let g = check(&agent.permissions, mode, &self.call, hook);
        self.pass(g, told)
    }

    /// The user has answered; none where nobody could be asked, which is a no.
    pub fn user_answered(
        &mut self,
        permissions: &mut PermissionEngine,
        answer: Option<PermissionResponse>,
    ) -> (r: Step)
        requires
            old(self).stage is Approval,
            old(permissions).wf(),
        ensures
            final(permissions).wf(),
            final(self).call == old(self).call,
            steps_left(final(self).stage) < steps_left(old(self).stage),
            r.action is Answer <==> final(self).stage is Answered,
            ({
                let a = match answer {
                    Some(x) => x,
                    None => PermissionResponse::Reject,
                };
                &&& passes(
                    gate_after(a),
                    old(self).call,
                    Seq::empty(),
                    r,
                    final(self).stage,
                )
                &&& final(permissions)@.grants == grants_after(
                    old(permissions)@,
                    old(self).call.name@,
                    old(self).call.argument@,
                    a,
                )
            }),
            final(permissions)@.allow == old(permissions)@.allow,
            final(permissions)@.deny == old(permissions)@.deny,
            final(permissions)@.ask == old(permissions)@.ask,
            final(permissions).invalid == old(permissions).invalid,
            final(permissions).mode == old(permissions).mode,
    {
        let g = answered_by_user(permissions, &self.call, answer);
        let none: Vec<AgentEvent> = Vec::new();
        assert(none@ =~= Seq::<AgentEvent>::empty());
        self.pass(g, none)
    }

    /// The tool has run, or failed to. The hooks are told what it answered.
    pub fn tool_ended(
        &mut self,
        agent: &Agent,
        result: Result<ToolOutcome, String>,
        taken: Duration,
    ) -> (r: Step)
        requires
            old(self).stage is Running,
        ensures
            final(self).call == old(self).call,
            steps_left(final(self).stage) < steps_left(old(self).stage),
            exists|o: ToolOutcome| #[trigger]
                says_finished(r.events@[0], old(self).call, o, taken) && (match result {
                    Ok(out) => o == out,
                    Err(e) => is_failure(o, old(self).call.name@ + " failed: "@ + e@),
                }) && (final(self).stage matches Stage::After(s) && s@ == o.content@),
            r.events@.len() == 1,
            ({
                &&& r.action matches Action::RunHooks(event, payload)
                &&& event == HookEvent::PostToolUse
                &&& is_payload(payload, event, *agent)
                &&& text::opt_view(payload.tool_name) == Some(old(self).call.name@)
                &&& payload.tool_input == Some(old(self).call.args)
                &&& final(self).stage matches Stage::After(s) && text::opt_view(payload.tool_output)
                    == Some(util::truncated(s@, 4096))
                &&& payload.prompt is None
            }),
    {
        let outcome = settled(&self.call.name, result);
        let ghost whole = outcome;
        let payload = agent.after_call(&self.call, &outcome.content);
        let mut events: Vec<AgentEvent> = Vec::new();
        events.push(finished_event(&self.call, outcome.display, outcome.is_error, taken));
        self.stage = Stage::After(outcome.content);
        let step = Step { events, action: Action::RunHooks(HookEvent::PostToolUse, payload) };
        assert(says_finished(step.events@[0], old(self).call, whole, taken));
        step
    }
}

/// A tool runs only where the rules allow it, or where they would ask and a hook
/// has approved; never over the veto of a hook or a refusal by the rules.
pub proof fn law_tools_run_only_when_cleared(
    hook: HookView,
    decision: DecisionView,
    p: PreparedCall,
    told: Seq<AgentEvent>,
    step: Step,
    stage: Stage,
)
    requires
        passes(gate(hook, decision), p, told, step, stage),
    ensures
        step.action is RunTool ==> hook !is Deny && (decision is Allow || (decision is Ask
            && hook is Allow)),
        step.action is AskUser ==> decision is Ask,
{
}

/// Where the user was asked, a tool runs if and only if the user did not decline.
pub proof fn law_declined_calls_never_run(
    answer: PermissionResponse,
    p: PreparedCall,
    told: Seq<AgentEvent>,
    step: Step,
    stage: Stage,
)
    requires
        passes(gate_after(answer), p, told, step, stage),
    ensures
        step.action is RunTool <==> answer != PermissionResponse::Reject,
        step.action is Answer <==> answer == PermissionResponse::Reject,
{
}

} // verus!
