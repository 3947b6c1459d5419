//! Non-interactive mode: one prompt, and the answer alone on the standard
//! output.
//!
//! Progress and diagnostics go to the standard error, and the exit code
//! reflects the outcome. Nothing prompts: without someone to ask, the agent
//! refuses anything that would ask.
use vstd::prelude::*;
use vstd::string::StringExecFns;
use crate::agent::{AgentEvent, StopReason, StopView};
use crate::api::types::Usage;
use crate::config::PermissionMode;
use crate::text;

verus! {

pub const EXIT_OK: i32 = 0;

pub const EXIT_ERROR: i32 = 1;

pub const EXIT_INTERRUPTED: i32 = 130;

pub const EXIT_TOOL_LIMIT: i32 = 2;

pub const EXIT_BLOCKED: i32 = 3;

// ---------------------------------------------------------------------------
// Before the run
// ---------------------------------------------------------------------------

/// What is said of a server that could not be started.
pub open spec fn failure_text(failure: (String, String)) -> Seq<char> {
    "warning: MCP server `"@ + failure.0@ + "` unavailable: "@ + failure.1@
}

/// What a run is warned of before it starts.
pub open spec fn warning_texts(
    failures: Seq<(String, String)>,
    invalid: Seq<Seq<char>>,
    mode: PermissionMode,
) -> Seq<Seq<char>> {
    let servers = failures.map_values(|f: (String, String)| failure_text(f));
    let rules = if invalid.len() > 0 {
        servers.push(
            "warning: ignoring malformed permission rules: "@ + text::joined(invalid, ", "@),
        )
    } else {
        servers
    };
    if mode == PermissionMode::BypassPermissions {
        rules.push("warning: running with permissions bypassed"@)
    } else {
        rules
    }
}

/// What a run is warned of before it starts: servers that could not be started,
/// malformed permission rules, and permissions that are bypassed.
pub fn warnings(
    failures: &Vec<(String, String)>,
    invalid: &Vec<String>,
    mode: PermissionMode,
) -> (r: Vec<String>)
    ensures
        text::views(r@) == warning_texts(failures@, text::views(invalid@), mode),
{
    let ghost all = failures@.map_values(|f: (String, String)| failure_text(f));
    let mut out: Vec<String> = Vec::new();
    let mut i: usize = 0;
    assert(text::views(out@) =~= all.take(0));
    while i < failures.len()
        invariant
            i <= failures.len(),
            all == failures@.map_values(|f: (String, String)| failure_text(f)),
            text::views(out@) == all.take(i as int),
        decreases failures.len() - i,
    {
        let mut t = "warning: MCP server `".to_owned();
        t.append(&failures[i].0);
        t.append("` unavailable: ");
        t.append(&failures[i].1);
        let ghost tv = t@;
        let ghost before = text::views(out@);
        out.push(t);
        assert(text::views(out@) =~= before.push(tv));
        assert(all[i as int] == tv);
        i += 1;
        assert(text::views(out@) =~= all.take(i as int));
    }
    assert(all.take(all.len() as int) =~= all);
    if invalid.len() > 0 {
        let mut t = "warning: ignoring malformed permission rules: ".to_owned();
        t.append(&text::join(invalid, ", "));
        let ghost tv = t@;
        let ghost before = text::views(out@);
        out.push(t);
        assert(text::views(out@) =~= before.push(tv));
    }
    if mode == PermissionMode::BypassPermissions {
        let t = "warning: running with permissions bypassed".to_owned();
        let ghost tv = t@;
        let ghost before = text::views(out@);
        out.push(t);
        assert(text::views(out@) =~= before.push(tv));
    }
    out
}

// ---------------------------------------------------------------------------
// The run
// ---------------------------------------------------------------------------

/// What a run has gathered.
#[derive(Debug)]
pub struct Run {
    /// The model's answer so far.
    pub answer: String,
    /// The calls that were refused.
    pub blocked: Vec<String>,
    pub stop: StopReason,
}

/// What a run has gathered, as text.
#[verifier::ext_equal]
pub struct RunView {
    pub answer: Seq<char>,
    pub blocked: Seq<Seq<char>>,
    pub stop: StopView,
}

impl View for Run {
    type V = RunView;

    open spec fn view(&self) -> RunView {
        RunView {
            answer: self.answer@,
            blocked: text::views(self.blocked@),
            stop: self.stop@,
        }
    }
}

/// The line that an event puts on the standard error, where it does.
pub open spec fn progress_text(event: AgentEvent) -> Option<Seq<char>> {
    match event {
        AgentEvent::ToolStarted { id: _, name: _, summary } => Some("· "@ + summary@),
        AgentEvent::ToolFinished { name, outcome_summary, is_error, .. } => if is_error {
            Some(
                "  "@ + name@ + " failed"@ + (match outcome_summary {
                    Some(s) => ": "@ + s@,
                    None => ""@,
                }),
            )
        } else {
            match outcome_summary {
                Some(s) => Some("  "@ + s@),
                None => None,
            }
        },
        AgentEvent::ToolDenied { id: _, name, reason } => Some(
            "  "@ + name@ + " refused: "@ + reason@,
        ),
        AgentEvent::Compacted { dropped, summary: _ } => Some(
            "· compacted "@ + text::decimal(dropped as nat) + " earlier messages"@,
        ),
        AgentEvent::Warning(t) => Some("warning: "@ + t@),
        _ => None,
    }
}

/// What a run has gathered once an event is in.
pub open spec fn gathered(run: RunView, event: AgentEvent) -> RunView {
    match event {
        AgentEvent::Text(chunk) => RunView { answer: run.answer + chunk@, ..run },
        AgentEvent::ToolDenied { id: _, name, reason } => RunView {
            blocked: run.blocked.push(name@ + ": "@ + reason@),
            ..run
        },
        AgentEvent::TurnComplete { stop_reason } => RunView { stop: stop_reason@, ..run },
        _ => run,
    }
}

/// How a run ends.
#[derive(Debug)]
pub struct Outcome {
    /// What goes to the standard output, alone. Absent where there is no answer.
    pub answer: Option<String>,
    /// The last word on the standard error.
    pub message: Option<String>,
    pub code: i32,
}

/// The exit code of a run.
pub open spec fn exit_code(run: RunView) -> i32 {
    match run.stop {
        StopView::Complete => if text::trimmed(run.answer).len() == 0 && run.blocked.len() > 0 {
            EXIT_BLOCKED
        } else {
            EXIT_OK
        },
        StopView::Interrupted => EXIT_INTERRUPTED,
        StopView::ToolLimitReached(_) => EXIT_TOOL_LIMIT,
        StopView::Error(_) => EXIT_ERROR,
    }
}

/// The last word on the standard error.
pub open spec fn last_word(run: RunView) -> Option<Seq<char>> {
    match run.stop {
        StopView::Complete => if exit_code(run) == EXIT_BLOCKED {
            Some(
                "error: every action was refused. Adjust permissions in .grok/config.toml, or pass --yes."@,
            )
        } else {
            None
        },
        StopView::Interrupted => Some("interrupted"@),
        StopView::ToolLimitReached(limit) => Some(
            "error: stopped after "@ + text::decimal(limit as nat) + " tool calls in one turn"@,
        ),
        StopView::Error(message) => Some("error: "@ + message),
    }
}

impl Run {
    pub fn new() -> (r: Self)
        ensures
            r@ == (RunView {
                answer: Seq::empty(),
                blocked: Seq::empty(),
                stop: StopView::Complete,
            }),
    {
        let r = Run {
            answer: String::new(),
            blocked: Vec::new(),
            stop: StopReason::Complete,
        };
        assert(r@.answer =~= Seq::<char>::empty());
        assert(r@.blocked =~= Seq::<Seq<char>>::empty());
        r
    }

    /// Takes an event in. Returns the line it puts on the standard error, where
    /// it does.
    pub fn take(&mut self, event: AgentEvent) -> (r: Option<String>)
        ensures
            final(self)@ == gathered(old(self)@, event),
            text::opt_view(r) == progress_text(event),
    {
        let ghost before = self@;
        match event {
            AgentEvent::Text(chunk) => {
                self.answer.append(&chunk);
                None
            },
            AgentEvent::ToolStarted { id: _, name: _, summary } => {
                let mut t = "· ".to_owned();
                t.append(&summary);
                Some(t)
            },
            AgentEvent::ToolFinished { id: _, name, outcome_summary, display: _, is_error, duration: _ } => {
                if is_error {
                    let mut t = "  ".to_owned();
                    t.append(&name);
                    t.append(" failed");
                    match outcome_summary {
                        Some(s) => {
                            let mut said = ": ".to_owned();
                            said.append(&s);
                            t.append(&said);
                        },
                        None => {
                            t.append("");
                        },
                    }
                    Some(t)
                } else {
                    match outcome_summary {
                        Some(s) => {
                            let mut t = "  ".to_owned();
                            t.append(&s);
                            Some(t)
                        },
                        None => None,
                    }
                }
            },
            AgentEvent::ToolDenied { id: _, name, reason } => {
                let mut t = "  ".to_owned();
                t.append(&name);
                t.append(" refused: ");
                t.append(&reason);
                let mut why = name;
                why.append(": ");
                why.append(&reason);
                let ghost wv = why@;
                self.blocked.push(why);
                assert(self@.blocked =~= before.blocked.push(wv));
                Some(t)
            },
            AgentEvent::Compacted { dropped, summary: _ } => {
                let mut t = "· compacted ".to_owned();
                t.append(&text::number(dropped as u64));
                t.append(" earlier messages");
                Some(t)
            },
            AgentEvent::Warning(w) => {
                let mut t = "warning: ".to_owned();
                t.append(&w);
                Some(t)
            },
            AgentEvent::TurnComplete { stop_reason } => {
                self.stop = stop_reason;
                None
            },
            AgentEvent::Reasoning(_) => None,
            AgentEvent::Usage(_) => None,
            AgentEvent::SubagentProgress { agent: _, text: _ } => None,
        }
    }

    /// How the run ends. A run that produced nothing because every action was
    /// refused is not a success, even though the model finished.
    pub fn finish(self) -> (r: Outcome)
        ensures
            text::opt_view(r.answer) == (if text::trimmed(self@.answer).len() == 0 {
                None
            } else {
                Some(text::trimmed(self@.answer))
            }),
            text::opt_view(r.message) == last_word(self@),
            r.code == exit_code(self@),
    {
        let trimmed = text::trim(&self.answer);
        let silent = text::chars_of(&trimmed).len() == 0;
        let blocked = self.blocked.len() > 0;
        let (message, code) = match self.stop {
            StopReason::Complete => if silent && blocked {
                (
                    Some("error: every action was refused. Adjust permissions in .grok/config.toml, or pass --yes.".to_owned()),
                    EXIT_BLOCKED,
                )
            } else {
                (None, EXIT_OK)
            },
            StopReason::Interrupted => (Some("interrupted".to_owned()), EXIT_INTERRUPTED),
            StopReason::ToolLimitReached { limit } => {
                let mut t = "error: stopped after ".to_owned();
                t.append(&text::number(limit as u64));
                t.append(" tool calls in one turn");
                (Some(t), EXIT_TOOL_LIMIT)
            },
            StopReason::Error(message) => {
                let mut t = "error: ".to_owned();
                t.append(&message);
                (Some(t), EXIT_ERROR)
            },
        };
        Outcome {
            answer: if silent {
                None
            } else {
                Some(trimmed)
            },
            message,
            code,
        }
    }
}

/// What a session has cost, once it has cost anything.
pub fn usage_line(usage: &Usage) -> (r: Option<String>)
    ensures
        text::opt_view(r) == (if usage.total_tokens > 0 {
            Some(
                "\n"@ + text::decimal(usage.prompt_tokens as nat) + " in, "@ + text::decimal(
                    usage.completion_tokens as nat,
                ) + " out, "@ + text::decimal(usage.total_tokens as nat) + " total"@,
            )
        } else {
            None
        }),
{
    if usage.total_tokens == 0 {
        return None;
    }
    let mut t = "\n".to_owned();
    t.append(&text::number(usage.prompt_tokens));
    t.append(" in, ");
    t.append(&text::number(usage.completion_tokens));
    t.append(" out, ");
    t.append(&text::number(usage.total_tokens));
    t.append(" total");
    Some(t)
}

// ---------------------------------------------------------------------------
// Laws
// ---------------------------------------------------------------------------

/// Callers can tell failures apart: two runs end with the same exit code only
/// where they stopped for the same kind of reason.
pub proof fn law_exit_codes_are_distinct(a: RunView, b: RunView)
    requires
        exit_code(a) == exit_code(b),
    ensures
        a.stop is Complete <==> b.stop is Complete,
        a.stop is Interrupted <==> b.stop is Interrupted,
        a.stop is ToolLimitReached <==> b.stop is ToolLimitReached,
        a.stop is Error <==> b.stop is Error,
{
}

/// A run succeeds exactly where the model finished, and either said something
/// or was refused nothing.
pub proof fn law_refused_runs_do_not_succeed(run: RunView)
    ensures
        exit_code(run) == EXIT_OK <==> run.stop is Complete && (text::trimmed(run.answer).len() > 0
            || run.blocked.len() == 0),
{
}

/// What a run has gathered from a list of events.
pub open spec fn gathered_all(run: RunView, events: Seq<AgentEvent>) -> RunView
    decreases events.len(),
{
    if events.len() == 0 {
        run
    } else {
        gathered(gathered_all(run, events.drop_last()), events.last())
    }
}

/// The answer is the text of the model and nothing else: events that carry no
/// text leave it as it is.
pub proof fn law_only_text_reaches_the_answer(run: RunView, events: Seq<AgentEvent>)
    requires
        forall|i: int| 0 <= i < events.len() ==> !((#[trigger] events[i]) is Text),
    ensures
        gathered_all(run, events).answer == run.answer,
    decreases events.len(),
{
    if events.len() > 0 {
        law_only_text_reaches_the_answer(run, events.drop_last());
    }
}

} // verus!
