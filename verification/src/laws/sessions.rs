//! What is kept of sessions, and how they are found again.
use vstd::prelude::*;
use crate::api::types::{
    calls_bytes, message_bytes, outgoing, usage_sum, CallView, MessageView, Role, Usage,
};
use crate::session::{
    applied, context_size, context_tokens, first_with_id, found_session, has_role, opening,
    replayed, scanned, EntryView, SessionView, SummaryView,
};
use crate::text;
use crate::util::truncated;

verus! {

proof fn lemma_no_id(list: Seq<SummaryView>, id: Seq<char>, from: int)
    requires
        0 <= from,
        forall|j: int| 0 <= j < list.len() ==> (#[trigger] list[j]).id != id,
    ensures
        first_with_id(list, id, from) is None,
    decreases list.len() - from,
{
    if from < list.len() {
        assert(list[from].id != id);
        lemma_no_id(list, id, from + 1);
    }
}

proof fn lemma_sole_kept(list: Seq<SummaryView>, keep: spec_fn(SummaryView) -> bool, i: int)
    requires
        0 <= i < list.len(),
        keep(list[i]),
        forall|j: int| 0 <= j < list.len() && j != i ==> !keep(#[trigger] list[j]),
    ensures
        list.filter(keep) == seq![list[i]],
    decreases list.len(),
{
    reveal(Seq::filter);
    let front = list.drop_last();
    if i == list.len() - 1 {
        lemma_none_kept(front, keep);
        assert(list.filter(keep) =~= seq![list[i]]);
    } else {
        assert(front[i] == list[i]);
        assert forall|j: int| 0 <= j < front.len() && j != i implies !keep(#[trigger] front[j]) by {
            assert(front[j] == list[j]);
        }
        lemma_sole_kept(front, keep, i);
        assert(!keep(list[list.len() - 1]));
    }
}

proof fn lemma_none_kept(list: Seq<SummaryView>, keep: spec_fn(SummaryView) -> bool)
    requires
        forall|j: int| 0 <= j < list.len() ==> !keep(#[trigger] list[j]),
    ensures
        list.filter(keep) == Seq::<SummaryView>::empty(),
    decreases list.len(),
{
    reveal(Seq::filter);
    if list.len() > 0 {
        let front = list.drop_last();
        assert forall|j: int| 0 <= j < front.len() implies !keep(#[trigger] front[j]) by {
            assert(front[j] == list[j]);
        }
        lemma_none_kept(front, keep);
        assert(!keep(list[list.len() - 1]));
    } else {
        assert(list.filter(keep) =~= Seq::<SummaryView>::empty());
    }
}

/// The beginning of an id finds the one session whose id begins so.
pub proof fn law_a_beginning_finds_its_session(list: Seq<SummaryView>, start: Seq<char>, i: int)
    requires
        0 <= i < list.len(),
        text::starts_with(list[i].id, start),
        forall|j: int|
            0 <= j < list.len() && j != i ==> !text::starts_with((#[trigger] list[j]).id, start),
    ensures
        found_session(list, start) == Some(list[i]),
{
    let keep = |s: SummaryView| text::starts_with(s.id, start);
    lemma_sole_kept(list, keep, i);
    match first_with_id(list, start, 0) {
        Some(k) => {
            lemma_first_is(list, start, 0);
            assert(list[k].id.subrange(0, start.len() as int) =~= start);
            assert(k == i);
        },
        None => {},
    }
}

proof fn lemma_first_is(list: Seq<SummaryView>, id: Seq<char>, from: int)
    requires
        0 <= from,
    ensures
        first_with_id(list, id, from) matches Some(i) ==> from <= i < list.len() && list[i].id
            == id,
    decreases list.len() - from,
{
    if from < list.len() && list[from].id != id {
        lemma_first_is(list, id, from + 1);
    }
}

/// What no id begins with finds nothing.
pub proof fn law_unknown_ids_find_nothing(list: Seq<SummaryView>, start: Seq<char>)
    requires
        forall|j: int|
            0 <= j < list.len() ==> !text::starts_with((#[trigger] list[j]).id, start),
    ensures
        found_session(list, start) is None,
{
    let keep = |s: SummaryView| text::starts_with(s.id, start);
    lemma_none_kept(list, keep);
    assert forall|j: int| 0 <= j < list.len() implies (#[trigger] list[j]).id != start by {
        if list[j].id == start {
            assert(list[j].id.subrange(0, start.len() as int) =~= start);
        }
    }
    lemma_no_id(list, start, 0);
}

/// What each line of a transcript adds to its summary: a message counts, the
/// first thing that the user said is kept, and a later title takes the place of
/// an earlier one. Any other line changes nothing.
pub proof fn law_transcripts_are_summed_up(
    start: SummaryView,
    lines: Seq<Option<EntryView>>,
    line: Option<EntryView>,
)
    ensures
        ({
            let (s, first) = scanned(start, lines);
            let (r, then) = scanned(start, lines.push(line));
            match line {
                Some(EntryView::Message { message, .. }) => {
                    &&& r == (SummaryView { message_count: s.message_count + 1, ..s })
                    &&& first is Some ==> then == first
                    &&& first is None && message.role == "user"@ ==> then == message.content
                    &&& first is None && message.role != "user"@ ==> then is None
                },
                Some(EntryView::Meta { at, id, model, title, .. }) => {
                    &&& then == first
                    &&& r.id == id && r.model == model
                    &&& title is Some ==> r.title == title
                    &&& title is None ==> r.title == s.title
                    &&& r.message_count == s.message_count
                    &&& s.started_at.len() > 0 ==> r.started_at == s.started_at
                    &&& s.started_at.len() == 0 ==> r.started_at == at
                    &&& r.path == s.path && r.modified == s.modified
                },
                _ => r == s && then == first,
            }
        }),
        scanned(start, Seq::empty()) == (start, None::<Seq<char>>),
{
    assert(lines.push(line).drop_last() =~= lines);
}

/// A session without a title goes by the first line of what was first said, where
/// that is short enough.
pub proof fn law_titles_are_opening_lines(line: Seq<char>, rest: Seq<char>)
    requires
        !line.contains('\n'),
        line.len() > 0 ==> line[line.len() - 1] != '\r',
    ensures
        text::byte_count(line) <= 72 ==> opening(line.push('\n') + rest) == line,
        opening(line.push('\n') + rest) == truncated(line, 72),
{
    crate::laws::text::law_carriage_returns_end_lines(line, rest);
}

/// Every message counts towards the context: what it says and the calls it makes,
/// four bytes to a token, and four tokens more.
pub proof fn law_messages_take_tokens(a: Seq<MessageView>, m: MessageView)
    ensures
        ({
            let more = context_tokens(a.push(m)) - context_tokens(a);
            &&& 4 * (more - 4) >= message_bytes(m)
            &&& 4 * (more - 4) < message_bytes(m) + 4
        }),
        context_tokens(Seq::empty()) == 0,
        m.tool_calls is None && m.content is None ==> message_bytes(m) == 0,
        m.tool_calls is None ==> (m.content matches Some(c) ==> message_bytes(m)
            == text::byte_count(c)),
        m.content is None ==> (m.tool_calls matches Some(calls) ==> message_bytes(m)
            == calls_bytes(calls)),
        m.content matches Some(c) ==> message_bytes(m) >= text::byte_count(c),
        m.tool_calls matches Some(calls) ==> message_bytes(m) >= calls_bytes(calls),
{
    assert(a.push(m).drop_last() =~= a);
}

/// A call counts by its name and its arguments.
pub proof fn law_calls_take_bytes(a: Seq<CallView>, c: CallView)
    ensures
        calls_bytes(a.push(c)) == calls_bytes(a) + text::byte_count(c.name) + text::byte_count(
            c.arguments,
        ),
        calls_bytes(Seq::empty()) == 0,
{
    assert(a.push(c).drop_last() =~= a);
}

/// Only reasoning is left out of what leaves the process.
pub proof fn law_only_reasoning_is_left_out(m: MessageView)
    ensures
        outgoing(m).role == m.role,
        outgoing(m).content == m.content,
        outgoing(m).tool_calls == m.tool_calls,
        outgoing(m).tool_call_id == m.tool_call_id,
        outgoing(m).reasoning_content is None,
{
}

/// Usage adds up, count by count.
pub proof fn law_usage_is_added(a: Usage, b: Usage)
    requires
        a.prompt_tokens + b.prompt_tokens <= u64::MAX,
        a.completion_tokens + b.completion_tokens <= u64::MAX,
        a.total_tokens + b.total_tokens <= u64::MAX,
    ensures
        usage_sum(a, b).prompt_tokens == a.prompt_tokens + b.prompt_tokens,
        usage_sum(a, b).completion_tokens == a.completion_tokens + b.completion_tokens,
        usage_sum(a, b).total_tokens == a.total_tokens + b.total_tokens,
{
}

/// Each record changes what it is about: a message is the latest one, a title holds
/// until there is another, and a compaction leaves the messages of the harness and
/// the summary.
pub proof fn law_records_change_the_session(s: SessionView, e: EntryView)
    ensures
        ({
            let r = applied(s, e);
            &&& e matches EntryView::Message { message, .. } ==> r.messages == s.messages.push(
                message,
            )
            &&& e matches EntryView::Meta { id, model, title, .. } ==> {
                &&& r.id == id
                &&& r.model == model
                &&& title is Some ==> r.title == title
                &&& title is None ==> r.title == s.title
            }
            &&& !(e is Meta) ==> r.id == s.id && r.model == s.model && r.title == s.title
            &&& e is Meta || e is Usage ==> r.messages == s.messages
            &&& e is Meta || e is Message ==> r.reported == s.reported
            &&& !(e is Usage) ==> r.usage == s.usage
            &&& e matches EntryView::Usage { usage, .. } ==> {
                &&& r.usage == usage_sum(s.usage, usage)
                &&& usage.prompt_tokens > 0 ==> r.reported == Some(usage.prompt_tokens)
                &&& usage.prompt_tokens == 0 ==> r.reported == s.reported
            }
            &&& e matches EntryView::Compaction { summary, .. } ==> {
                &&& r.reported is None
                &&& r.messages.len() > 0
                &&& r.messages.last().content == Some(summary)
                &&& r.messages.last().role == "user"@
                &&& forall|i: int|
                    0 <= i < r.messages.len() - 1 ==> (#[trigger] r.messages[i]).role == "system"@
                &&& forall|i: int|
                    0 <= i < s.messages.len() && (#[trigger] s.messages[i]).role == "system"@
                        ==> r.messages.contains(s.messages[i])
            }
        }),
{
    if let EntryView::Compaction { summary, .. } = e {
        let keep = |m: MessageView| has_role(m, Role::System);
        let r = applied(s, e);
        let kept = s.messages.filter(keep);
        s.messages.filter_lemma(keep);
        assert forall|i: int| 0 <= i < r.messages.len() - 1 implies (
        #[trigger] r.messages[i]).role == "system"@ by {
            assert(keep(kept[i]));
        }
        assert forall|i: int|
            0 <= i < s.messages.len() && (#[trigger] s.messages[i]).role
                == "system"@ implies r.messages.contains(s.messages[i]) by {
            assert(keep(s.messages[i]));
            assert(kept.contains(s.messages[i]));
            let j = choose|j: int| 0 <= j < kept.len() && kept[j] == s.messages[i];
            assert(r.messages[j] == s.messages[i]);
        }
    }
}

/// The lines of a transcript are read in their order, and one that cannot be read
/// changes nothing.
pub proof fn law_transcripts_are_read_in_order(
    start: SessionView,
    lines: Seq<Option<EntryView>>,
    e: EntryView,
)
    ensures
        replayed(start, Seq::empty()) == start,
        replayed(start, lines.push(Some(e))) == applied(replayed(start, lines), e),
        replayed(start, lines.push(None)) == replayed(start, lines),
{
    assert(lines.push(Some(e)).drop_last() =~= lines);
    assert(lines.push(None).drop_last() =~= lines);
}

/// The size of the context is what the provider counted, or what the messages are
/// estimated to take as long as it has not.
pub proof fn law_counts_come_before_estimates(s: SessionView)
    ensures
        s.reported matches Some(n) ==> context_size(s) == n,
        s.reported is None ==> context_size(s) == context_tokens(s.messages),
{
}

/// Where no token came from the cache, nothing is said of it that was not said
/// before.
pub proof fn law_caches_are_mentioned_when_used(a: Usage, b: Usage)
    requires
        crate::api::types::cached(a) + crate::api::types::cached(b) <= u64::MAX,
    ensures
        ({
            let n = crate::api::types::cached(a) + crate::api::types::cached(b);
            &&& n == 0 ==> usage_sum(a, b).prompt_tokens_details == a.prompt_tokens_details
            &&& crate::api::types::cached(usage_sum(a, b)) == n
        }),
{
}

} // verus!
