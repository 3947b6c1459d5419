//! What becomes of a conversation that is compacted.
use vstd::prelude::*;
use crate::agent::calls::body_of;
use crate::agent::prompt::COMPACTION_SYSTEM;
use crate::agent::turn::{after_step, TurnStep};
use crate::agent::{
    compacted, compaction_cut, cut_from, summary_message, summary_request, transcript,
};
use crate::api::types::{role_name, text_message, MessageView, Role};
use crate::session::system_only;
use crate::text;
use crate::util;

verus! {

/// The messages that were said: all but those of the harness itself.
pub open spec fn is_said(m: MessageView) -> bool {
    m.role != "system"@
}

/// The place where a conversation is cut: the latest eight messages stay, but for
/// the answers to calls at their beginning, which would be left without the calls.
pub open spec fn is_cut(said: Seq<MessageView>, cut: int) -> bool {
    &&& said.len() > 8
    &&& said.len() - 8 <= cut <= said.len()
    &&& forall|i: int| said.len() - 8 <= i < cut ==> (#[trigger] said[i]).role == "tool"@
    &&& cut < said.len() ==> said[cut].role != "tool"@
}

proof fn lemma_cut_is(said: Seq<MessageView>, from: int)
    requires
        0 <= from <= said.len(),
    ensures
        ({
            let cut = cut_from(said, from);
            &&& from <= cut <= said.len()
            &&& forall|i: int| from <= i < cut ==> (#[trigger] said[i]).role == "tool"@
            &&& cut < said.len() ==> said[cut].role != "tool"@
        }),
    decreases said.len() - from,
{
    if from < said.len() && said[from].role == "tool"@ {
        lemma_cut_is(said, from + 1);
    }
}

/// A compaction keeps the messages of the harness, puts the summary behind them,
/// and keeps the latest of what was said as it was. A conversation that is short
/// stays as it is.
pub proof fn law_compaction_replaces_only_what_is_old(
    messages: Seq<MessageView>,
    summary: Seq<char>,
)
    ensures
        ({
            let said = messages.filter(|m: MessageView| is_said(m));
            let own = messages.filter(|m: MessageView| !is_said(m));
            match compaction_cut(messages) {
                None => said.len() <= 8 && compacted(messages, summary) == messages,
                Some(cut) => {
                    &&& is_cut(said, cut)
                    &&& compacted(messages, summary) == own + seq![summary_message(summary)]
                        + said.skip(cut)
                },
            }
        }),
{
    let said = messages.filter(|m: MessageView| is_said(m));
    let own = messages.filter(|m: MessageView| !is_said(m));
    lemma_same_filter(
        messages,
        |m: MessageView| is_said(m),
        |m: MessageView| !crate::session::has_role(m, Role::System),
    );
    lemma_same_filter(
        messages,
        |m: MessageView| !is_said(m),
        |m: MessageView| crate::session::has_role(m, Role::System),
    );
    assert(said == body_of(messages));
    assert(own == system_only(messages));
    if said.len() > 8 {
        lemma_cut_is(said, said.len() - 8);
        let cut = compaction_cut(messages)->0;
        assert(compacted(messages, summary) =~= own + seq![summary_message(summary)] + said.skip(
            cut,
        ));
    }
}

proof fn lemma_same_filter(
    s: Seq<MessageView>,
    f: spec_fn(MessageView) -> bool,
    g: spec_fn(MessageView) -> bool,
)
    requires
        forall|m: MessageView| #[trigger] f(m) == g(m),
    ensures
        s.filter(f) == s.filter(g),
    decreases s.len(),
{
    reveal(Seq::filter);
    if s.len() > 0 {
        lemma_same_filter(s.drop_last(), f, g);
        assert(f(s.last()) == g(s.last()));
    }
}

/// Where the eighth message from the end is no answer to a call, exactly eight
/// messages stay.
pub proof fn law_eight_messages_stay(messages: Seq<MessageView>, summary: Seq<char>)
    requires
        ({
            let said = messages.filter(|m: MessageView| is_said(m));
            said.len() > 8 && said[said.len() - 8].role != "tool"@
        }),
    ensures
        ({
            let said = messages.filter(|m: MessageView| is_said(m));
            let own = messages.filter(|m: MessageView| !is_said(m));
            compacted(messages, summary) == own + seq![summary_message(summary)] + said.skip(
                said.len() - 8,
            )
        }),
{
    law_compaction_replaces_only_what_is_old(messages, summary);
    let said = messages.filter(|m: MessageView| is_said(m));
    let cut = compaction_cut(messages)->0;
    if cut > said.len() - 8 {
        assert(said[said.len() - 8].role == "tool"@);
    }
}

/// The summary stands in the message that takes the place of what it is of, as
/// something that the user said.
pub proof fn law_the_summary_is_told(summary: Seq<char>)
    ensures
        summary_message(summary).role == "user"@,
        summary_message(summary).content matches Some(c) && text::contains(c, summary),
        summary_message(summary).tool_calls is None,
        summary_message(summary).tool_call_id is None,
{
    let before = "<summary-of-earlier-conversation>\n"@;
    let c = summary_message(summary).content->0;
    let n = before.len() as int;
    assert(c.subrange(n, n + summary.len()) =~= summary);
    assert(text::occurs_at(c, summary, n));
}

/// The model is asked for a summary exactly where there is something to replace,
/// and it is shown all of that and nothing else, in order.
pub proof fn law_what_is_summarized(messages: Seq<MessageView>)
    ensures
        match compaction_cut(messages) {
            None => summary_request(messages) is None,
            Some(cut) => {
                let said = messages.filter(|m: MessageView| is_said(m));
                &&& is_cut(said, cut)
                &&& summary_request(messages) matches Some(asked)
                &&& asked.len() == 2
                &&& asked[0] == text_message(Role::System, COMPACTION_SYSTEM@)
                &&& asked[1] == text_message(
                    Role::User,
                    "Conversation to summarize:\n\n"@ + transcript(said.take(cut)),
                )
            },
        },
{
    law_compaction_replaces_only_what_is_old(messages, Seq::empty());
    lemma_same_filter(
        messages,
        |m: MessageView| is_said(m),
        |m: MessageView| !crate::session::has_role(m, Role::System),
    );
}

/// What is shown of a conversation is one message after the other, each with the
/// role that said it and, where it is not too long, all that it said.
pub proof fn law_transcripts_show_every_message(
    a: Seq<MessageView>,
    m: MessageView,
    b: Seq<MessageView>,
)
    ensures
        transcript(a.push(m) + b) == transcript(a) + transcript(seq![m]) + transcript(b),
        m.content matches Some(c) ==> (text::byte_count(c) <= 2000 ==> transcript(seq![m]) == m.role
            + ": "@ + c + "\n"@),
        m.content is None ==> transcript(seq![m]) == m.role + ": "@ + "\n"@,
    decreases b.len(),
{
    let none: Seq<MessageView> = Seq::empty();
    reveal_strlit("");
    assert(""@ =~= Seq::<char>::empty());
    assert(seq![m].drop_last() =~= none);
    assert(transcript(none) =~= Seq::<char>::empty());
    assert(seq![m].last() == m);
    if m.content is Some && text::byte_count(m.content->0) <= 2000 {
        assert(transcript(seq![m]) =~= m.role + ": "@ + m.content->0 + "\n"@);
    }
    if m.content is None {
        assert(util::truncated(""@, 2000) == ""@);
        assert(transcript(seq![m]) =~= m.role + ": "@ + "\n"@);
    }
    let s = a.push(m) + b;
    if b.len() == 0 {
        assert(s =~= a.push(m));
        assert(s.drop_last() =~= a);
        assert(transcript(s) =~= transcript(a) + transcript(seq![m]) + transcript(b));
    } else {
        law_transcripts_show_every_message(a, m, b.drop_last());
        assert(s.drop_last() =~= a.push(m) + b.drop_last());
        assert(transcript(s) =~= transcript(a) + transcript(seq![m]) + transcript(b));
    }
}

/// A prompt is the latest message, and a completion is followed by the answers to
/// its calls, in their order.
pub proof fn law_turns_add_to_the_conversation(
    messages: Seq<MessageView>,
    prompt: Seq<char>,
    completion: MessageView,
    contents: Seq<Seq<char>>,
    k: int,
)
    requires
        contents.len() == crate::agent::calls::calls_of(completion).len(),
        0 <= k < contents.len(),
    ensures
        ({
            let asked = after_step(messages, TurnStep::Prompt(prompt));
            &&& asked.len() == messages.len() + 1
            &&& asked.drop_last() == messages
            &&& asked.last().role == role_name(Role::User)
            &&& asked.last().content == Some(prompt)
        }),
        ({
            let r = after_step(messages, TurnStep::Round(completion, contents));
            let n = messages.len() as int;
            &&& r.len() == n + 1 + contents.len()
            &&& r.take(n) == messages
            &&& r[n] == completion
            &&& r[n + 1 + k].role == role_name(Role::Tool)
            &&& r[n + 1 + k].tool_call_id == Some(crate::agent::calls::calls_of(completion)[k].id)
            &&& r[n + 1 + k].content == Some(contents[k])
        }),
{
    let asked = after_step(messages, TurnStep::Prompt(prompt));
    assert(asked.drop_last() =~= messages);
    let r = after_step(messages, TurnStep::Round(completion, contents));
    assert(r.take(messages.len() as int) =~= messages);
}

} // verus!
