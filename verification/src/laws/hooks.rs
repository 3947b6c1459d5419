//! What hooks decide, and what comes of borrowed tools.
use vstd::prelude::*;
use crate::hooks::{
    allowed_seconds, approval_of, collective, context_of, fires, gathered, reply_in, reply_of,
    veto_of, HookEvent, HookView, OutcomeView, ReplyView,
};
use crate::json::{field, Json};
use crate::laws::text::{is_blank, law_blank_text_trims_to_nothing};
use crate::matching::regex_matches;
use crate::mcp::{
    block_text, blocks_text, borrowed_name, error_text, is_frame, name_on_server, Frame,
};
use crate::text;

verus! {

/// A hook without a matcher fires for every event. One with a matcher fires for
/// the tools that it matches, and never where there is no tool.
pub proof fn law_matchers_pick_tools(
    matcher: Option<Seq<char>>,
    command: Seq<char>,
    timeout: u64,
    tool: Option<Seq<char>>,
)
    ensures
        matcher is None ==> fires((matcher, command, timeout), tool),
        matcher is Some && tool is None ==> !fires((matcher, command, timeout), tool),
        matcher is Some && tool is Some ==> fires((matcher, command, timeout), tool)
            == regex_matches(matcher->0, false, tool->0),
{
}

/// A hook has at least a second and at most five minutes.
pub proof fn law_hooks_have_time(timeout: u64)
    ensures
        1 <= allowed_seconds(timeout) <= 300,
        1 <= timeout <= 300 ==> allowed_seconds(timeout) == timeout,
        timeout == 0 ==> allowed_seconds(timeout) == 1,
        timeout > 300 ==> allowed_seconds(timeout) == 300,
{
}

/// A hook that exits with two vetoes, whatever it printed, and says why on its
/// error stream.
pub proof fn law_exit_status_two_vetoes(
    stdout: Seq<char>,
    stderr: Seq<char>,
    parsed: Result<Json, Seq<char>>,
    distinct: bool,
    command: Seq<char>,
)
    ensures
        ({
            let reply = reply_of(Some(2i32), stdout, stderr, parsed, distinct);
            let o = OutcomeView { command, reply: Ok(reply) };
            &&& veto_of(HookEvent::PreToolUse, o) is Some
            &&& stderr.len() > 0 ==> veto_of(HookEvent::PreToolUse, o) == Some(stderr)
            &&& context_of(o).len() == 0
        }),
{
}

/// A hook that says nothing objects to nothing, and what is no reply is text for
/// the conversation.
pub proof fn law_other_output_is_context(
    code: Option<i32>,
    stdout: Seq<char>,
    stderr: Seq<char>,
    parsed: Result<Json, Seq<char>>,
    distinct: bool,
)
    requires
        code != Some(2i32),
    ensures
        stdout.len() == 0 ==> reply_of(code, stdout, stderr, parsed, distinct) == (ReplyView {
            decision: None,
            reason: None,
            context: None,
        }),
        stdout.len() > 0 && (parsed is Err || !distinct || reply_in(parsed->Ok_0) is None)
            ==> reply_of(code, stdout, stderr, parsed, distinct) == (ReplyView {
            decision: None,
            reason: None,
            context: Some(stdout),
        }),
        stdout.len() > 0 && distinct && code == Some(0i32) ==> (parsed matches Ok(j) ==> (reply_in(
            j,
        ) matches Some(r) ==> reply_of(code, stdout, stderr, parsed, distinct) == r)),
{
}

/// A reply is an object that says at least one of three things, each as text.
pub proof fn law_replies_say_something(j: Json)
    ensures
        reply_in(j) is Some ==> field(j, "decision"@) is Some || field(j, "reason"@) is Some
            || field(j, "context"@) is Some,
        reply_in(j) matches Some(r) ==> {
            &&& field(j, "decision"@) matches Some(Json::Str(s)) ==> r.decision == Some(s@)
            &&& field(j, "reason"@) matches Some(Json::Str(s)) ==> r.reason == Some(s@)
            &&& field(j, "context"@) matches Some(Json::Str(s)) ==> r.context == Some(s@)
            &&& field(j, "decision"@) is None ==> r.decision is None
            &&& field(j, "reason"@) is None ==> r.reason is None
            &&& field(j, "context"@) is None ==> r.context is None
        },
        (field(j, "decision"@) matches Some(Json::Str(_))) && field(j, "reason"@) is None && field(
            j,
            "context"@,
        ) is None ==> reply_in(j) is Some,
        (field(j, "decision"@) matches Some(Json::Str(_))) && (field(j, "reason"@) matches Some(
            Json::Str(_),
        )) && field(j, "context"@) is None ==> reply_in(j) is Some,
{
}

/// The words that decide: two veto, two approve, and no other does either.
pub proof fn law_words_decide(command: Seq<char>, r: ReplyView)
    ensures
        ({
            let o = OutcomeView { command, reply: Ok(r) };
            &&& (veto_of(HookEvent::PreToolUse, o) is Some) == (r.decision == Some("deny"@)
                || r.decision == Some("block"@))
            &&& (approval_of(o) is Some) == (r.decision == Some("allow"@) || r.decision == Some(
                "approve"@,
            ))
            &&& r.reason matches Some(t) ==> (veto_of(HookEvent::PreToolUse, o) is Some ==> veto_of(
                HookEvent::PreToolUse,
                o,
            ) == Some(t)) && (approval_of(o) is Some ==> approval_of(o) == Some(t))
            &&& r.context matches Some(t) ==> (is_blank(t) ==> context_of(o).len() == 0) && (
            !is_blank(t) ==> context_of(o) == seq![t])
            &&& r.context is None ==> context_of(o).len() == 0
        }),
{
    match r.context {
        Some(t) => law_blank_text_trims_to_nothing(t),
        None => {},
    }
}

/// A hook that fails leaves a note, and neither vetoes nor approves.
pub proof fn law_failures_leave_a_note(event: HookEvent, command: Seq<char>, error: Seq<char>)
    ensures
        ({
            let o = OutcomeView { command, reply: Err(error) };
            &&& veto_of(event, o) is None
            &&& approval_of(o) is None
            &&& context_of(o).len() == 1
            &&& text::contains(context_of(o)[0], command)
            &&& text::contains(context_of(o)[0], error)
        }),
{
    let o = OutcomeView { command, reply: Err(error) };
    let note = context_of(o)[0];
    let a = "[hook `"@;
    let b = a + command + "` failed: "@;
    let n = a.len() as int;
    let m = b.len() as int;
    assert(note.subrange(n, n + command.len()) =~= command);
    assert(text::occurs_at(note, command, n));
    assert(note.subrange(m, m + error.len()) =~= error);
    assert(text::occurs_at(note, error, m));
}

proof fn lemma_gathered(event: HookEvent, outcomes: Seq<OutcomeView>, o: OutcomeView)
    requires
        gathered(event, outcomes) is Ok,
        veto_of(event, o) is None,
    ensures
        gathered(event, outcomes.push(o)) is Ok,
        gathered(event, outcomes.push(o))->Ok_0.0 == gathered(event, outcomes)->Ok_0.0 + context_of(
            o,
        ),
        gathered(event, outcomes.push(o))->Ok_0.1 == match approval_of(o) {
            Some(a) => Some(a),
            None => gathered(event, outcomes)->Ok_0.1,
        },
{
    assert(outcomes.push(o).drop_last() =~= outcomes);
}

/// What every hook adds is told, in the order in which the hooks ran, where none
/// of them decides.
pub proof fn law_every_context_is_told(
    event: HookEvent,
    outcomes: Seq<OutcomeView>,
    o: OutcomeView,
    said: Seq<Seq<char>>,
)
    requires
        collective(event, outcomes) == HookView::Proceed(said),
        veto_of(event, o) is None,
        approval_of(o) is None,
    ensures
        collective(event, outcomes.push(o)) == HookView::Proceed(said + context_of(o)),
        collective(event, Seq::empty()) == HookView::Proceed(Seq::empty()),
{
    lemma_gathered(event, outcomes, o);
}

/// An approval holds, whatever later hooks add, unless one of them vetoes; and a
/// veto holds whatever they say.
pub proof fn law_decisions_hold(event: HookEvent, outcomes: Seq<OutcomeView>, o: OutcomeView)
    ensures
        collective(event, outcomes) is Deny ==> collective(event, outcomes.push(o)) == collective(
            event,
            outcomes,
        ),
        collective(event, outcomes) is Allow && veto_of(event, o) is None && approval_of(o) is None
            ==> collective(event, outcomes.push(o)) == collective(event, outcomes),
        !(collective(event, outcomes) is Deny) ==> (veto_of(event, o) matches Some(reason)
            ==> collective(event, outcomes.push(o)) == HookView::Deny(reason)),
        !(collective(event, outcomes) is Deny) && veto_of(event, o) is None ==> (approval_of(
            o,
        ) matches Some(reason) ==> collective(event, outcomes.push(o)) == HookView::Allow(reason)),
{
    assert(outcomes.push(o).drop_last() =~= outcomes);
}

// ---------------------------------------------------------------------------
// Borrowed tools
// ---------------------------------------------------------------------------

/// A borrowed tool goes by its server's name and its own, and back to its own on
/// the server.
pub proof fn law_borrowed_names_lead_back(server: Seq<char>, tool: Seq<char>)
    ensures
        borrowed_name(server, tool) == seq!['m', 'c', 'p', '_', '_'] + server + seq!['_', '_']
            + tool,
        name_on_server(server, borrowed_name(server, tool)) == tool,
{
    reveal_strlit("mcp__");
    reveal_strlit("__");
    assert("mcp__"@ =~= seq!['m', 'c', 'p', '_', '_']);
    assert("__"@ =~= seq!['_', '_']);
    let p = crate::mcp::name_prefix(server);
    let whole = borrowed_name(server, tool);
    assert(whole.subrange(0, p.len() as int) =~= p);
    assert(whole.skip(p.len() as int) =~= tool);
}

/// An answer goes to the request of its number: with what went wrong, or with
/// what came of it. What has no number answers nothing.
pub proof fn law_answers_go_to_their_requests(j: Json, f: Frame)
    requires
        is_frame(Ok(j), Some(f)),
    ensures
        crate::json::uint_field(j, "id"@) == Some(f.id),
        field(j, "error"@) matches Some(e) ==> (f.payload matches Err(m) && m@ == error_text(e)),
        field(j, "error"@) is None ==> (field(j, "result"@) matches Some(v) ==> f.payload == Ok::<
            Json,
            String,
        >(v)),
{
}

/// The blocks of a result are read one after the other.
pub proof fn law_blocks_are_read_in_order(a: Seq<Json>, b: Json)
    ensures
        blocks_text(a.push(b)) == blocks_text(a) + block_text(b),
        blocks_text(Seq::empty()) == Seq::<char>::empty(),
        crate::json::str_field(b, "type"@) == Some("text"@) ==> (crate::json::str_field(
            b,
            "text"@,
        ) matches Some(t) ==> block_text(b) == t.push('\n')),
{
    assert(a.push(b).drop_last() =~= a);
    reveal_strlit("\n");
    if crate::json::str_field(b, "type"@) == Some("text"@) && crate::json::str_field(
        b,
        "text"@,
    ) is Some {
        let t = crate::json::str_field(b, "text"@)->0;
        assert(t + "\n"@ =~= t.push('\n'));
    }
}

} // verus!
