//! One turn, from the prompt to the reason why it ended.
//!
//! The caller makes the requests and runs the tools. What it does next is decided
//! here, and whatever comes of its steps, no call is left without an answer.
use std::sync::Arc;
use vstd::prelude::*;
use crate::agent::calls::{
    answered, answers_to, calls_of, law_every_call_is_answered, law_prompts_keep_calls_answered,
    lemma_answered_append, lemma_answered_push, OpenCalls, INTERRUPTED,
};
use crate::agent::subagent::SubagentDefinition;
use crate::agent::task::{brief, is_start, TaskRun};
use crate::agent::{
    compact, compacted, compaction_cut, compaction_request, compaction_warning,
    law_compaction_keeps_calls_answered, records, summary_request, with_system, Agent, AgentEvent,
    Next, StopReason, StopView, Turn,
};
use crate::api::types::{
    call_views, calls_tools, law_role_names_distinct, message_views, text_message, tool_message,
    usage_fits, CallView, Completion, Message, MessageView, Role, ToolCall,
};
use crate::config::{compaction_point, model_entry, model_table, Config};
use crate::session::{
    after_usage, context_size, has_role, measurable, queued, EntryView, Session, SessionView,
};
use crate::text;
use crate::tools::ToolInfo;

verus! {

/// Where a turn stands.
#[derive(Debug)]
pub enum TurnStage {
    /// Before a request.
    Ready,
    /// The model is asked for a summary.
    Summarizing,
    /// The model is asked for a completion.
    Waiting,
    /// The calls of a completion are being answered.
    Answering(OpenCalls),
    /// The turn has ended.
    Ended,
}

/// What is done next in a turn.
#[derive(Debug)]
pub enum TurnAction {
    /// Ask the model for a summary of the conversation so far.
    Summarize(Vec<Message>),
    /// Ask the model for a completion.
    Request,
    /// Run a call.
    Execute(ToolCall),
    /// Pass over a call: the turn was interrupted before it ran.
    PassOver,
    /// Go on to the next request.
    GoOn,
    /// The turn ends.
    Stop(StopReason),
}

/// A turn under way.
#[derive(Debug)]
pub struct TurnFlow {
    pub turn: Turn,
    pub stage: TurnStage,
}

/// Whether every call of a conversation is answered once the calls that are left
/// are, whatever the answers say.
pub open spec fn answered_but(messages: Seq<MessageView>, left: Seq<CallView>) -> bool {
    forall|contents: Seq<Seq<char>>|
        contents.len() == left.len() ==> answered(messages + #[trigger] answers_to(left, contents))
}

/// What is done next about calls that are being answered.
pub open spec fn follows(action: TurnAction, stage: TurnStage, open: OpenCalls) -> bool {
    if open.done < open.calls@.len() {
        &&& stage matches TurnStage::Answering(o) && o == open
        &&& if open.interrupted {
            action is PassOver
        } else {
            action matches TurnAction::Execute(c) && c@ == open.calls@[open.done as int]@
        }
    } else if open.interrupted {
        &&& stage is Ended
        &&& action matches TurnAction::Stop(s) && s@ == StopView::Interrupted
    } else {
        stage is Ready && action is GoOn
    }
}

fn go_on(turn: &Turn, open: OpenCalls) -> (r: (TurnAction, TurnStage))
    requires
        open.wf(),
    ensures
        follows(r.0, r.1, open),
{
    if open.done < open.calls.len() {
        if open.interrupted {
            (TurnAction::PassOver, TurnStage::Answering(open))
        } else {
            let call = open.calls[open.done].clone();
            (TurnAction::Execute(call), TurnStage::Answering(open))
        }
    } else {
        match turn.after_calls(&open) {
            Some(stop) => (TurnAction::Stop(stop), TurnStage::Ended),
            None => (TurnAction::GoOn, TurnStage::Ready),
        }
    }
}

impl TurnFlow {
    pub open spec fn wf(&self) -> bool {
        &&& self.turn.wf()
        &&& self.stage matches TurnStage::Answering(open) ==> open.wf() && open.done
            < open.calls@.len()
    }

    /// What holds of the conversation at every point of a turn: every call is
    /// answered, but for those that are being answered.
    pub open spec fn keeps(&self, messages: Seq<MessageView>) -> bool {
        match self.stage {
            TurnStage::Answering(open) => answered_but(
                messages,
                call_views(open.calls@).skip(open.done as int),
            ),
            _ => answered(messages),
        }
    }

    /// A turn of an agent, once its prompt stands in the conversation.
    pub fn new(agent: &Agent) -> (r: Self)
        ensures
            r.wf(),
            r.stage is Ready,
            r.turn.iterations == 0,
            r.turn.limit == agent.config.max_tool_iterations,
            answered(agent.session@.messages) ==> r.keeps(agent.session@.messages),
    {
        TurnFlow { turn: Turn::new(agent.config.max_tool_iterations), stage: TurnStage::Ready }
    }

    /// Before a request: the turn ends here, or older messages are summarized
    /// first, or the model is asked.
    pub fn next_request(&mut self, agent: &Agent, cancelled: bool) -> (r: TurnAction)
        requires
            old(self).wf(),
            old(self).stage is Ready,
            agent.wf(),
            measurable(agent.session@),
        ensures
            final(self).wf(),
            final(self).turn.limit == old(self).turn.limit,
            old(self).keeps(agent.session@.messages) ==> final(self).keeps(
                agent.session@.messages,
            ),
            if cancelled {
                &&& final(self).stage is Ended
                &&& r matches TurnAction::Stop(s) && s@ == StopView::Interrupted
                &&& final(self).turn.iterations == old(self).turn.iterations
            } else if old(self).turn.iterations >= old(self).turn.limit {
                &&& final(self).stage is Ended
                &&& r matches TurnAction::Stop(s) && s@ == StopView::ToolLimitReached(
                    old(self).turn.limit,
                )
                &&& final(self).turn.iterations == old(self).turn.iterations
            } else {
                let full = context_size(agent.session@) >= compaction_point(
                    model_entry(model_table(), agent.config.model@).1 as nat,
                    agent.config.auto_compact_threshold,
                );
                &&& final(self).turn.iterations == old(self).turn.iterations + 1
                &&& match summary_request(agent.session@.messages) {
                    Some(ask) => if full {
                        &&& final(self).stage is Summarizing
                        &&& r matches TurnAction::Summarize(m) && message_views(m@) == ask
                    } else {
                        final(self).stage is Waiting && r is Request
                    },
                    None => final(self).stage is Waiting && r is Request,
                }
            },
    {
        if let Some(stop) = self.turn.before_request(cancelled) {
            self.stage = TurnStage::Ended;
            return TurnAction::Stop(stop);
        }
        if agent.needs_compaction() {
            if let Some(ask) = compaction_request(&agent.session.messages) {
                self.stage = TurnStage::Summarizing;
                return TurnAction::Summarize(ask);
            }
        }
        self.stage = TurnStage::Waiting;
        TurnAction::Request
    }

    /// The model has given a summary, or has failed to, which is no reason to end
    /// the turn. Next it is asked for a completion. Returns what the driver is
    /// told.
    pub fn summarized(&mut self, agent: &mut Agent, summary: Result<String, String>) -> (r: Option<
        AgentEvent,
    >)
        requires
            old(self).wf(),
            old(self).stage is Summarizing,
            old(agent).wf(),
        ensures
            final(self).wf(),
            final(self).stage is Waiting,
            final(self).turn == old(self).turn,
            final(agent).wf(),
            *final(agent) == (Agent { session: final(agent).session, ..*old(agent) }),
            final(agent).session.path == old(agent).session.path,
            final(agent).session.persistence_error == old(agent).session.persistence_error,
            old(self).keeps(old(agent).session@.messages) ==> final(self).keeps(
                final(agent).session@.messages,
            ),
            ({
                let before = old(agent).session;
                let after = final(agent).session;
                match (summary, compaction_cut(before@.messages)) {
                    (Err(e), _) => {
                        &&& r matches Some(AgentEvent::Warning(t)) && t@ == "compaction failed: "@
                            + e@
                        &&& after == before
                    },
                    (Ok(_), None) => r is None && after == before,
                    (Ok(s), Some(cut)) => if text::trimmed(s@).len() == 0 {
                        &&& r matches Some(AgentEvent::Warning(t)) && t@ == "compaction failed: "@
                            + "the model returned an empty summary"@
                        &&& after == before
                    } else {
                        &&& r matches Some(AgentEvent::Compacted { dropped, summary: told })
                            && dropped == cut && told@ == s@
                        &&& after@ == (SessionView {
                            messages: compacted(before@.messages, s@),
                            reported: None,
                            ..before@
                        })
                        &&& queued(
                            before,
                            after,
                            |at: Seq<char>| EntryView::Compaction {
                                at,
                                summary: s@,
                                dropped_messages: cut as usize,
                            },
                        )
                    },
                }
            }),
    {
        self.stage = TurnStage::Waiting;
        match summary {
            Err(e) => Some(compaction_warning(&e)),
            Ok(summary) => {
                proof {
                    if answered(agent.session@.messages) {
                        law_compaction_keeps_calls_answered(agent.session@.messages, summary@);
                    }
                }
                match compact(&mut agent.session, &summary) {
                    Ok(Some(dropped)) => Some(AgentEvent::Compacted { dropped, summary }),
                    Ok(None) => None,
                    Err(e) => Some(compaction_warning(&e)),
                }
            },
        }
    }

    /// The request has failed, which ends the turn.
    pub fn failed(&mut self, error: &str, cancelled: bool) -> (r: TurnAction)
        requires
            old(self).wf(),
            old(self).stage is Waiting,
        ensures
            final(self).wf(),
            final(self).stage is Ended,
            final(self).turn == old(self).turn,
            forall|messages: Seq<MessageView>| #[trigger]
                final(self).keeps(messages) == old(self).keeps(messages),
            r matches TurnAction::Stop(s) && s@ == (if cancelled {
                StopView::Interrupted
            } else {
                StopView::Error(error@)
            }),
    {
        self.stage = TurnStage::Ended;
        TurnAction::Stop(self.turn.failed(error, cancelled))
    }

    /// The model has given a completion. Its usage is counted and its message is
    /// appended before anything else; then its calls are answered, or the turn
    /// ends. Where the usage cannot be counted the turn fails.
    pub fn completed(&mut self, agent: &mut Agent, completion: &Completion, cancelled: bool) -> (r:
        TurnAction)
        requires
            old(self).wf(),
            old(self).stage is Waiting,
            old(agent).wf(),
        ensures
            final(self).wf(),
            final(self).turn == old(self).turn,
            final(agent).wf(),
            *final(agent) == (Agent { session: final(agent).session, ..*old(agent) }),
            final(agent).session.path == old(agent).session.path,
            final(agent).session.persistence_error == old(agent).session.persistence_error,
            has_role(completion.message@, Role::Assistant) && old(self).keeps(
                old(agent).session@.messages,
            ) ==> final(self).keeps(final(agent).session@.messages),
            if !usage_fits(old(agent).session.usage, completion.usage) {
                &&& final(self).stage is Ended
                &&& r matches TurnAction::Stop(s) && s@ == (if cancelled {
                    StopView::Interrupted
                } else {
                    StopView::Error("the reported token counts overflow"@)
                })
                &&& final(agent).session == old(agent).session
            } else {
                &&& final(agent).session@ == (SessionView {
                    messages: old(agent).session@.messages.push(completion.message@),
                    ..after_usage(old(agent).session@, completion.usage)
                })
                &&& exists|between: Session| #[trigger]
                    records(
                        old(agent).session,
                        between,
                        final(agent).session,
                        completion.usage,
                        completion.message@,
                    )
                &&& if calls_tools(completion.message@) {
                    exists|open: OpenCalls| #[trigger]
                        follows(r, final(self).stage, open) && open.done == 0 && open.interrupted
                            == cancelled && call_views(open.calls@) == calls_of(
                            completion.message@,
                        )
                } else {
                    &&& final(self).stage is Ended
                    &&& r matches TurnAction::Stop(s) && s@ == (if cancelled {
                        StopView::Interrupted
                    } else {
                        StopView::Complete
                    })
                }
            },
    {
        if !agent.session.usage.can_add(&completion.usage) {
            return self.failed("the reported token counts overflow", cancelled);
        }
        let ghost before = agent.session@.messages;
        proof {
            if answered(before) && has_role(completion.message@, Role::Assistant) {
                lemma_opened(before, completion.message@);
            }
        }
        match agent.take_completion(completion, cancelled) {
            Next::Stop(stop) => {
                self.stage = TurnStage::Ended;
                TurnAction::Stop(stop)
            },
            Next::Answer(open) => {
                proof {
                    assert(call_views(open.calls@).skip(0) =~= call_views(open.calls@));
                    assert(call_views(open.calls@).len() == open.calls@.len());
                }
                let (action, stage) = go_on(&self.turn, open);
                self.stage = stage;
                action
            },
        }
    }

    /// A call has come to its answer: the answer is appended, and the next call
    /// follows, or the next request.
    pub fn executed(&mut self, agent: &mut Agent, content: &str) -> (r: TurnAction)
        requires
            old(self).wf(),
            old(self).stage is Answering,
            old(agent).wf(),
        ensures
            final(self).wf(),
            final(self).turn == old(self).turn,
            final(agent).wf(),
            *final(agent) == (Agent { session: final(agent).session, ..*old(agent) }),
            final(agent).session.path == old(agent).session.path,
            final(agent).session.persistence_error == old(agent).session.persistence_error,
            old(self).keeps(old(agent).session@.messages) ==> final(self).keeps(
                final(agent).session@.messages,
            ),
            ({
                let open = old(self).stage->Answering_0;
                let answer = tool_message(call_views(open.calls@)[open.done as int].id, content@);
                &&& final(agent).session@ == (SessionView {
                    messages: old(agent).session@.messages.push(answer),
                    ..old(agent).session@
                })
                &&& queued(
                    old(agent).session,
                    final(agent).session,
                    |at: Seq<char>| EntryView::Message { at, message: answer },
                )
                &&& follows(
                    r,
                    final(self).stage,
                    (OpenCalls { done: (open.done + 1) as usize, ..open }),
                )
            }),
    {
        let mut stage = TurnStage::Ended;
        std::mem::swap(&mut stage, &mut self.stage);
        match stage {
            TurnStage::Answering(open) => {
                let mut open = open;
                let ghost left = call_views(open.calls@).skip(open.done as int);
                let ghost before = agent.session@.messages;
                proof {
                    if answered_but(before, left) {
                        lemma_one_less(before, left, content@);
                    }
                    assert(left.skip(1) =~= call_views(open.calls@).skip(open.done + 1));
                    assert(left[0] == call_views(open.calls@)[open.done as int]);
                }
                agent.answer_call(&mut open, content);
                proof {
                    let none = call_views(open.calls@).skip(open.calls@.len() as int);
                    if open.done == open.calls@.len() && answered_but(
                        agent.session@.messages,
                        none,
                    ) {
                        lemma_none_left(agent.session@.messages, none);
                    }
                }
                let (action, next) = go_on(&self.turn, open);
                self.stage = next;
                action
            },
            _ => {
                assert(false);
                TurnAction::Stop(StopReason::Interrupted)
            },
        }
    }

    /// A call is passed over, because the turn was interrupted before it ran. It
    /// is answered all the same.
    pub fn passed_over(&mut self, agent: &mut Agent) -> (r: TurnAction)
        requires
            old(self).wf(),
            old(self).stage is Answering,
            old(agent).wf(),
        ensures
            final(self).wf(),
            final(self).turn == old(self).turn,
            final(agent).wf(),
            *final(agent) == (Agent { session: final(agent).session, ..*old(agent) }),
            final(agent).session.path == old(agent).session.path,
            final(agent).session.persistence_error == old(agent).session.persistence_error,
            old(self).keeps(old(agent).session@.messages) ==> final(self).keeps(
                final(agent).session@.messages,
            ),
            ({
                let open = old(self).stage->Answering_0;
                let answer = tool_message(
                    call_views(open.calls@)[open.done as int].id,
                    INTERRUPTED@,
                );
                &&& final(agent).session@ == (SessionView {
                    messages: old(agent).session@.messages.push(answer),
                    ..old(agent).session@
                })
                &&& queued(
                    old(agent).session,
                    final(agent).session,
                    |at: Seq<char>| EntryView::Message { at, message: answer },
                )
                &&& follows(
                    r,
                    final(self).stage,
                    (OpenCalls { done: (open.done + 1) as usize, ..open }),
                )
            }),
    {
        self.executed(agent, INTERRUPTED)
    }
}

proof fn lemma_opened(before: Seq<MessageView>, completion: MessageView)
    requires
        answered(before),
        has_role(completion, Role::Assistant),
    ensures
        answered_but(before.push(completion), calls_of(completion)),
        calls_of(completion).len() == 0 ==> answered(before.push(completion)),
{
    let left = calls_of(completion);
    assert forall|contents: Seq<Seq<char>>| contents.len() == left.len() implies answered(
        before.push(completion) + #[trigger] answers_to(left, contents),
    ) by {
        law_every_call_is_answered(before, completion, contents);
    }
    if left.len() == 0 {
        lemma_none_left(before.push(completion), left);
    }
}

proof fn lemma_one_less(messages: Seq<MessageView>, left: Seq<CallView>, content: Seq<char>)
    requires
        answered_but(messages, left),
        left.len() > 0,
    ensures
        answered_but(messages.push(tool_message(left[0].id, content)), left.skip(1)),
{
    let more = messages.push(tool_message(left[0].id, content));
    assert forall|contents: Seq<Seq<char>>| contents.len() == left.skip(1).len() implies answered(
        more + #[trigger] answers_to(left.skip(1), contents),
    ) by {
        let all = seq![content] + contents;
        assert(messages + answers_to(left, all) =~= more + answers_to(left.skip(1), contents));
    }
}

proof fn lemma_none_left(messages: Seq<MessageView>, left: Seq<CallView>)
    requires
        answered_but(messages, left),
        left.len() == 0,
    ensures
        answered(messages),
{
    let none: Seq<Seq<char>> = Seq::empty();
    assert(messages + answers_to(left, none) =~= messages);
}

// ---------------------------------------------------------------------------
// Over any number of turns
// ---------------------------------------------------------------------------

/// What changes a conversation.
pub enum TurnStep {
    /// A prompt of the user.
    Prompt(Seq<char>),
    /// The system prompt is renewed.
    Refresh(Seq<char>),
    /// Older messages are replaced by a summary.
    Compaction(Seq<char>),
    /// A completion, with the answers to its calls.
    Round(MessageView, Seq<Seq<char>>),
}

/// A conversation after a step.
pub open spec fn after_step(messages: Seq<MessageView>, step: TurnStep) -> Seq<MessageView> {
    match step {
        TurnStep::Prompt(p) => messages.push(text_message(Role::User, p)),
        TurnStep::Refresh(p) => with_system(messages, p),
        TurnStep::Compaction(s) => compacted(messages, s),
        TurnStep::Round(completion, contents) => messages.push(completion) + answers_to(
            calls_of(completion),
            contents,
        ),
    }
}

/// A conversation after steps, the oldest first.
pub open spec fn after_steps(messages: Seq<MessageView>, steps: Seq<TurnStep>) -> Seq<MessageView>
    decreases steps.len(),
{
    if steps.len() == 0 {
        messages
    } else {
        after_step(after_steps(messages, steps.drop_last()), steps.last())
    }
}

/// Whether a step is one of the model's: its completions are the assistant's,
/// and each call has its answer.
pub open spec fn is_sound(step: TurnStep) -> bool {
    step matches TurnStep::Round(completion, contents) ==> has_role(completion, Role::Assistant)
        && contents.len() == calls_of(completion).len()
}

/// However many turns a conversation has, and whatever they hold, every call in
/// it is answered: denied, failed, interrupted, unknown or unparseable, each has
/// one answer behind the message that made it, also after compactions.
pub proof fn law_turns_leave_every_call_answered(
    messages: Seq<MessageView>,
    steps: Seq<TurnStep>,
)
    requires
        answered(messages),
        forall|i: int| 0 <= i < steps.len() ==> is_sound(#[trigger] steps[i]),
    ensures
        answered(after_steps(messages, steps)),
    decreases steps.len(),
{
    if steps.len() > 0 {
        let front = steps.drop_last();
        assert forall|i: int| 0 <= i < front.len() implies is_sound(#[trigger] front[i]) by {
            assert(front[i] == steps[i]);
        }
        law_turns_leave_every_call_answered(messages, front);
        let before = after_steps(messages, front);
        assert(is_sound(steps[steps.len() - 1]));
        match steps.last() {
            TurnStep::Prompt(p) => law_prompts_keep_calls_answered(before, p),
            TurnStep::Refresh(p) => lemma_refresh_keeps_answered(before, p),
            TurnStep::Compaction(s) => law_compaction_keeps_calls_answered(before, s),
            TurnStep::Round(completion, contents) => law_every_call_is_answered(
                before,
                completion,
                contents,
            ),
        }
    }
}

/// The same holds of the conversation that a subagent has over its job, however
/// many rounds it takes.
pub proof fn law_subagents_leave_every_call_answered(
    run: TaskRun,
    d: SubagentDefinition,
    parent: Seq<Arc<ToolInfo>>,
    config: Config,
    agent: Seq<char>,
    job: Seq<char>,
    steps: Seq<TurnStep>,
)
    requires
        is_start(run, d, parent, config, agent, job),
        forall|i: int|
            0 <= i < steps.len() ==> (#[trigger] steps[i]) is Round && is_sound(steps[i]),
    ensures
        answered(after_steps(message_views(run.messages@), steps)),
{
    let system = text_message(Role::System, brief(d@.prompt, config.workspace@));
    if has_role(system, Role::Tool) {
        law_role_names_distinct(Role::System, Role::Tool);
    }
    let none: Seq<MessageView> = Seq::empty();
    assert(answered(none));
    lemma_answered_push(none, system);
    law_prompts_keep_calls_answered(none.push(system), job);
    assert(message_views(run.messages@) =~= none.push(system).push(text_message(Role::User, job)));
    law_turns_leave_every_call_answered(message_views(run.messages@), steps);
}

proof fn lemma_refresh_keeps_answered(messages: Seq<MessageView>, prompt: Seq<char>)
    requires
        answered(messages),
    ensures
        answered(with_system(messages, prompt)),
{
    let m = text_message(Role::System, prompt);
    if has_role(m, Role::Tool) {
        law_role_names_distinct(Role::System, Role::Tool);
    }
    if messages.len() > 0 && has_role(messages[0], Role::System) {
        if has_role(messages[0], Role::Assistant) {
            law_role_names_distinct(Role::System, Role::Assistant);
        }
        assert(calls_of(messages[0]).len() == 0);
        let r = messages.update(0, m);
        assert(r.skip(1) =~= messages.skip(1));
        assert(calls_of(m).len() == 0);
    } else {
        let none: Seq<MessageView> = Seq::empty();
        assert(answered(none));
        lemma_answered_push(none, m);
        assert(none.push(m) =~= seq![m]);
        lemma_answered_append(seq![m], messages);
    }
}

} // verus!
