//! What is asked of the provider again, and what its stream says.
use vstd::prelude::*;
use crate::api::client::{
    before_done, ends_stream, half_seconds, pause_nanos, shortened, verdict, without_slashes,
    Verdict,
};
use crate::api::sse::{
    after_choice, after_chunk, after_fragment, complete_events, data_lines, effective_id, fed,
    finished_message, flushed, opt_text, payload, slot_from, AccView, DecoderView, EventView,
    PartialView,
};
use crate::api::types::{ChatChunk, ChunkChoice, Role, ToolCallDelta, role_name};
use crate::laws::text::{
    holds_just, is_blank, law_blank_text_trims_to_nothing, law_decimals_stand_for_their_number,
};
use crate::text;

verus! {

// ---------------------------------------------------------------------------
// Attempts
// ---------------------------------------------------------------------------

/// What was served is used, and a request that the server refuses for good is not
/// made again.
pub proof fn law_answers_decide(attempt: u32, max_retries: u32, status: u16)
    ensures
        200 <= status <= 299 <==> verdict(attempt, max_retries, Some(status)) == Verdict::Accept,
        300 <= status <= 428 || 430 <= status <= 499 ==> verdict(attempt, max_retries, Some(status))
            == Verdict::Fail,
{
}

/// A request that was limited, that failed at the server or that could not be sent
/// is made again, as long as there are attempts left.
pub proof fn law_trouble_is_tried_again(attempt: u32, max_retries: u32, status: Option<u16>)
    requires
        status is None || status == Some(429u16) || 500 <= status->0 <= 599,
    ensures
        attempt < max_retries <==> verdict(attempt, max_retries, status) == Verdict::Retry,
        attempt >= max_retries <==> verdict(attempt, max_retries, status) == Verdict::Fail,
{
}

/// The first pause is a second, and each further one is twice as long as the one
/// before it.
pub proof fn law_pauses_double(attempt: u32)
    requires
        attempt < u32::MAX,
    ensures
        pause_nanos(1, None) == 1_000_000_000,
        pause_nanos((attempt + 1) as u32, None) == 2 * pause_nanos(attempt, None),
{
    reveal_with_fuel(half_seconds, 3);
    assert(half_seconds(1) == 2);
}

/// Where the server says how long to wait, that is how long the pause is.
pub proof fn law_servers_set_the_pause(attempt: u32, said: Seq<char>, seconds: u64)
    requires
        text::parsed_u64(said) == Some(seconds),
    ensures
        pause_nanos(attempt, Some(said)) == seconds * 1_000_000_000,
{
}

/// Words in place of a number of seconds change nothing.
pub proof fn law_other_words_set_no_pause(attempt: u32, said: Seq<char>)
    requires
        text::parsed_u64(said) is None,
    ensures
        pause_nanos(attempt, Some(said)) == pause_nanos(attempt, None),
{
}

/// An address loses the slashes at its end, and nothing else.
pub proof fn law_addresses_end_without_slashes(a: Seq<char>, n: nat)
    requires
        a.len() == 0 || a.last() != '/',
    ensures
        without_slashes(a + Seq::new(n, |i: int| '/')) == a,
    decreases n,
{
    let s = a + Seq::new(n, |i: int| '/');
    if n == 0 {
        assert(s =~= a);
    } else {
        assert(s.last() == '/');
        assert(s.drop_last() =~= a + Seq::new((n - 1) as nat, |i: int| '/'));
        law_addresses_end_without_slashes(a, (n - 1) as nat);
    }
}

/// A short text is quoted whole.
pub proof fn law_short_replies_are_whole(s: Seq<char>, max: nat)
    ensures
        text::byte_count(s) <= max ==> shortened(s, max) == s,
{
}

// ---------------------------------------------------------------------------
// Events
// ---------------------------------------------------------------------------

/// A line of data is what stands behind `data:` and one space.
pub proof fn law_data_stands_behind_its_name(line: Seq<char>)
    ensures
        data_lines(seq!["data: "@ + line]) == line,
        line.len() > 0 && line[0] != ' ' ==> data_lines(seq!["data:"@ + line]) == line,
{
    reveal_strlit("data:");
    reveal_strlit("data: ");
    reveal_strlit(" ");
    let none = Seq::<Seq<char>>::empty();
    assert(data_lines(none) =~= Seq::<char>::empty());
    let a = "data: "@ + line;
    assert(a.subrange(0, 5) =~= "data:"@);
    assert(a.skip(5) =~= " "@ + line);
    assert((" "@ + line).subrange(0, 1) =~= " "@);
    assert((" "@ + line).skip(1) =~= line);
    assert(seq![a].drop_last() =~= none);
    assert(Seq::<char>::empty() + line =~= line);
    let b = "data:"@ + line;
    assert(b.subrange(0, 5) =~= "data:"@);
    assert(b.skip(5) =~= line);
    assert(seq![b].drop_last() =~= none);
    if line.len() > 0 && line[0] != ' ' {
        assert(line.subrange(0, 1)[0] == line[0]);
    }
}

/// The lines of data of an event follow each other, a line break between them.
pub proof fn law_data_lines_are_joined(lines: Seq<Seq<char>>, line: Seq<char>)
    ensures
        data_lines(lines).len() > 0 ==> data_lines(lines.push("data: "@ + line)) == data_lines(lines)
            + seq!['\n'] + line,
        !text::starts_with(line, "data:"@) ==> data_lines(lines.push(line)) == data_lines(lines),
{
    reveal_strlit("data:");
    reveal_strlit("data: ");
    reveal_strlit(" ");
    let a = "data: "@ + line;
    assert(a.subrange(0, 5) =~= "data:"@);
    assert(a.skip(5) =~= " "@ + line);
    assert((" "@ + line).subrange(0, 1) =~= " "@);
    assert((" "@ + line).skip(1) =~= line);
    assert(lines.push(a).drop_last() =~= lines);
    assert(lines.push(line).drop_last() =~= lines);
    assert(data_lines(lines).push('\n') + line =~= data_lines(lines) + seq!['\n'] + line);
}

/// Whether a text holds no blank line, nor ends in the middle of one.
pub open spec fn is_one_event(s: Seq<char>) -> bool {
    &&& forall|i: int| 0 <= i < s.len() - 1 ==> !(#[trigger] s[i] == '\n' && s[i + 1] == '\n')
    &&& s.len() > 0 ==> s.last() != '\n'
}

/// A blank line ends an event. What follows is read in the same way.
pub proof fn law_blank_lines_end_events(event: Seq<char>, rest: Seq<char>)
    requires
        is_one_event(event),
    ensures
        ({
            let (payloads, left) = complete_events(event + seq!['\n', '\n'] + rest);
            let (more, behind) = complete_events(rest);
            &&& left == behind
            &&& payload(event) matches Some(p) ==> payloads == seq![p] + more
            &&& payload(event) is None ==> payloads == more
        }),
{
    reveal_strlit("\n\n");
    let s = event + seq!['\n', '\n'] + rest;
    let n = event.len() as int;
    assert("\n\n"@ =~= seq!['\n', '\n']);
    assert(s.subrange(n, n + 2) =~= "\n\n"@);
    text::lemma_found_from(s, "\n\n"@, 0);
    match text::found(s, "\n\n"@) {
        Some(i) => {
            assert(text::occurs_at(s, "\n\n"@, i));
            assert(text::occurs_at(s, "\n\n"@, n));
            if i < n {
                assert(s.subrange(i, i + 2)[0] == '\n' && s.subrange(i, i + 2)[1] == '\n');
                assert(s[i] == event[i]);
                if i < n - 1 {
                    assert(s[i + 1] == event[i + 1]);
                    assert(event[i] == '\n' && event[i + 1] == '\n');
                }
            }
            assert(i == n);
            assert(s.skip(n + 2) =~= rest);
            assert(s.take(n) =~= event);
        },
        None => {
            assert(text::occurs_at(s, "\n\n"@, n));
        },
    }
}

/// An event that no blank line has ended yet waits for the rest of it.
pub proof fn law_unfinished_events_wait(event: Seq<char>)
    requires
        is_one_event(event),
    ensures
        complete_events(event) == (Seq::<Seq<char>>::empty(), event),
{
    reveal_strlit("\n\n");
    assert("\n\n"@ =~= seq!['\n', '\n']);
    text::lemma_found_from(event, "\n\n"@, 0);
    if let Some(i) = text::found(event, "\n\n"@) {
        assert(text::occurs_at(event, "\n\n"@, i));
        assert(event.subrange(i, i + 2)[0] == '\n' && event.subrange(i, i + 2)[1] == '\n');
        assert(event[i] == '\n' && event[i + 1] == '\n');
    }
}

/// When the stream ends, an event that no blank line ended is read too.
pub proof fn law_the_last_event_is_read(event: Seq<char>)
    requires
        is_one_event(event),
        !event.contains('\r'),
    ensures
        payload(event) matches Some(p) ==> flushed(event) == seq![p],
        payload(event) is None ==> flushed(event) == Seq::<Seq<char>>::empty(),
{
    reveal_strlit("\r\n");
    if text::contains(event, "\r\n"@) {
        let i = choose|i: int| text::occurs_at(event, "\r\n"@, i);
        assert(event.subrange(i, i + 2)[0] == '\r');
        assert(event.contains(event[i]));
    }
    crate::laws::text::law_replacing_nothing(event, "\r\n"@, "\n"@);
    law_unfinished_events_wait(event);
    if let Some(p) = payload(event) {
        assert(Seq::<Seq<char>>::empty().push(p) =~= seq![p]);
    }
}

/// An event of blanks has nothing to say, and any other is handed on as it is.
pub proof fn law_blank_events_are_dropped(event: Seq<char>)
    ensures
        ({
            let data = data_lines(text::lines_of(event));
            &&& is_blank(data) ==> payload(event) is None
            &&& !is_blank(data) ==> payload(event) == Some(data)
        }),
{
    law_blank_text_trims_to_nothing(data_lines(text::lines_of(event)));
}

/// A decoder reads what it kept and what came in as one text, and gives up where
/// an event grows beyond its limit.
pub proof fn law_what_came_in_is_read(d: DecoderView, piece: Seq<char>)
    requires
        !d.overflowed,
        !(d.buffer + piece).contains('\r'),
    ensures
        text::byte_count(d.buffer + piece) <= 8_388_608 ==> {
            let (after, payloads) = fed(d, piece);
            &&& complete_events(d.buffer + piece) == (payloads, after.buffer)
            &&& !after.overflowed
        },
        text::byte_count(d.buffer + piece) > 8_388_608 ==> {
            let (after, payloads) = fed(d, piece);
            &&& after.overflowed
            &&& after.buffer.len() == 0
            &&& payloads.len() == 0
        },
{
    let s = d.buffer + piece;
    reveal_strlit("\r\n");
    if text::contains(s, "\r\n"@) {
        let i = choose|i: int| text::occurs_at(s, "\r\n"@, i);
        assert(s.subrange(i, i + 2)[0] == '\r');
        assert(s.contains(s[i]));
    }
    crate::laws::text::law_replacing_nothing(s, "\r\n"@, "\n"@);
}

/// The mark of the end, with white space round it or not, ends the stream, and
/// nothing else does.
pub proof fn law_the_end_is_marked(payload: Seq<char>)
    ensures
        ends_stream(payload) <==> holds_just(payload, "[DONE]"@),
{
    reveal_strlit("[DONE]");
    crate::laws::text::law_trimmed_to(payload, "[DONE]"@);
}

/// What came before the end is acted on, in its order, and nothing behind it.
pub proof fn law_nothing_counts_behind_the_end(
    before: Seq<Seq<char>>,
    end: Seq<char>,
    behind: Seq<Seq<char>>,
)
    requires
        forall|i: int| 0 <= i < before.len() ==> !ends_stream(#[trigger] before[i]),
        ends_stream(end),
    ensures
        before_done(before) == before,
        before_done(before.push(end) + behind) == before,
    decreases before.len(),
{
    let all = before.push(end) + behind;
    if before.len() == 0 {
        assert(all[0] == end);
        assert(before_done(before) =~= before);
        assert(before_done(all) =~= before);
    } else {
        let rest = before.skip(1);
        assert forall|i: int| 0 <= i < rest.len() implies !ends_stream(#[trigger] rest[i]) by {
            assert(rest[i] == before[i + 1]);
        }
        law_nothing_counts_behind_the_end(rest, end, behind);
        assert(all[0] == before[0]);
        assert(all.skip(1) =~= rest.push(end) + behind);
        assert(seq![before[0]] + rest =~= before);
    }
}

// ---------------------------------------------------------------------------
// Messages
// ---------------------------------------------------------------------------

/// Words are appended and told, and so are thoughts, apart from each other.
pub proof fn law_words_are_appended(a: AccView, c: ChunkChoice)
    requires
        c.finish_reason is None,
    ensures
        ({
            let (r, events) = after_choice(a, c);
            let words = opt_text(c.delta.content);
            let thoughts = opt_text(c.delta.reasoning_content);
            &&& r.text == a.text + words
            &&& r.reasoning == a.reasoning + thoughts
            &&& r.finish_reason == a.finish_reason
            &&& r.usage == a.usage
            &&& words.len() > 0 && thoughts.len() == 0 ==> events == seq![EventView::Text(words)]
            &&& words.len() == 0 && thoughts.len() > 0 ==> events == seq![
                EventView::Reasoning(thoughts),
            ]
            &&& words.len() > 0 && thoughts.len() > 0 ==> events == seq![
                EventView::Text(words),
                EventView::Reasoning(thoughts),
            ]
            &&& words.len() == 0 && thoughts.len() == 0 ==> events.len() == 0
            &&& c.delta.tool_calls is None ==> r.calls == a.calls
        }),
{
}

/// A fragment is added to the call of its index, and leaves the other calls alone.
pub proof fn law_fragments_go_to_their_call(calls: Seq<PartialView>, d: ToolCallDelta, k: int)
    requires
        0 <= k < calls.len(),
        calls[k].index == d.index,
        forall|i: int| 0 <= i < k ==> (#[trigger] calls[i]).index != d.index,
    ensures
        ({
            let r = after_fragment(calls, d);
            let c = calls[k];
            &&& r.len() == calls.len()
            &&& forall|i: int| 0 <= i < calls.len() && i != k ==> #[trigger] r[i] == calls[i]
            &&& r[k].index == d.index
            &&& r[k].id == if opt_text(d.id).len() > 0 {
                opt_text(d.id)
            } else {
                c.id
            }
            &&& d.function matches Some(f) ==> r[k].name == c.name + opt_text(f.name)
                && r[k].arguments == c.arguments + opt_text(f.arguments)
            &&& d.function is None ==> r[k].name == c.name && r[k].arguments == c.arguments
        }),
{
    lemma_slot(calls, d.index, 0, k);
}

/// A fragment with a new index begins a call, behind the others.
pub proof fn law_new_indices_begin_calls(calls: Seq<PartialView>, d: ToolCallDelta)
    requires
        forall|i: int| 0 <= i < calls.len() ==> (#[trigger] calls[i]).index != d.index,
    ensures
        ({
            let r = after_fragment(calls, d);
            let n = calls.len() as int;
            &&& r.len() == n + 1
            &&& forall|i: int| 0 <= i < n ==> #[trigger] r[i] == calls[i]
            &&& r[n].index == d.index
            &&& r[n].id == opt_text(d.id)
            &&& d.function matches Some(f) ==> r[n].name == opt_text(f.name) && r[n].arguments
                == opt_text(f.arguments)
            &&& d.function is None ==> r[n].name.len() == 0 && r[n].arguments.len() == 0
        }),
{
    lemma_no_slot(calls, d.index, 0);
    let all = calls.push(
        PartialView {
            index: d.index,
            id: Seq::empty(),
            name: Seq::empty(),
            arguments: Seq::empty(),
        },
    );
    lemma_slot(all, d.index, 0, calls.len() as int);
    if opt_text(d.id).len() == 0 {
        assert(opt_text(d.id) =~= Seq::<char>::empty());
    }
    if let Some(f) = d.function {
        assert(Seq::<char>::empty() + opt_text(f.name) =~= opt_text(f.name));
        assert(Seq::<char>::empty() + opt_text(f.arguments) =~= opt_text(f.arguments));
    }
}

proof fn lemma_slot(calls: Seq<PartialView>, index: usize, from: int, k: int)
    requires
        0 <= from <= k < calls.len(),
        calls[k].index == index,
        forall|i: int| from <= i < k ==> (#[trigger] calls[i]).index != index,
    ensures
        slot_from(calls, index, from) == Some(k),
    decreases k - from,
{
    if from < k {
        lemma_slot(calls, index, from + 1, k);
    }
}

proof fn lemma_no_slot(calls: Seq<PartialView>, index: usize, from: int)
    requires
        0 <= from,
        forall|i: int| from <= i < calls.len() ==> (#[trigger] calls[i]).index != index,
    ensures
        slot_from(calls, index, from) is None,
    decreases calls.len() - from,
{
    if from < calls.len() {
        lemma_no_slot(calls, index, from + 1);
    }
}

/// The latest count of tokens that the provider sent is kept.
pub proof fn law_the_latest_usage_is_kept(a: AccView, chunk: ChatChunk)
    requires
        chunk.choices@.len() == 0,
    ensures
        chunk.usage matches Some(u) ==> after_chunk(a, chunk).0.usage == u,
        chunk.usage is None ==> after_chunk(a, chunk).0.usage == a.usage,
        after_chunk(a, chunk).1.len() == 0,
{
}

/// When a message is finished, each call that has a name is announced, once.
pub proof fn law_named_calls_are_announced(a: AccView, c: ChunkChoice, k: int)
    requires
        c.finish_reason is Some,
        c.delta.content is None,
        c.delta.reasoning_content is None,
        c.delta.tool_calls is None,
        0 <= k < a.calls.len(),
    ensures
        ({
            let (r, events) = after_choice(a, c);
            let call = EventView::ToolCallReady(crate::api::sse::as_call(a.calls[k]));
            &&& a.calls[k].name.len() > 0 && !a.announced.contains(a.calls[k].index)
                ==> events.contains(call) && r.announced.contains(a.calls[k].index)
            &&& r.calls == a.calls
            &&& r.finish_reason == Some(c.finish_reason->0@)
        }),
{
    let (r, events) = after_choice(a, c);
    let keep = |p: PartialView| crate::api::sse::is_ready(p, a.announced);
    let ready = a.calls.filter(keep);
    if a.calls[k].name.len() > 0 && !a.announced.contains(a.calls[k].index) {
        a.calls.filter_lemma(keep);
        assert(keep(a.calls[k]));
        assert(ready.contains(a.calls[k]));
        let j = choose|j: int| 0 <= j < ready.len() && ready[j] == a.calls[k];
        let told = ready.map_values(
            |c: PartialView| EventView::ToolCallReady(crate::api::sse::as_call(c)),
        );
        assert(told[j] == EventView::ToolCallReady(crate::api::sse::as_call(a.calls[k])));
        assert(events =~= told);
        let indices = ready.map_values(|c: PartialView| c.index);
        assert(indices[j] == a.calls[k].index);
        assert(r.announced =~= a.announced + indices);
        assert(r.announced[a.announced.len() + j] == a.calls[k].index);
    }
}

/// A call has the id that the provider gave it, else one that tells it from the
/// other calls of its message.
pub proof fn law_calls_have_ids(a: PartialView, b: PartialView)
    ensures
        a.id.len() > 0 ==> effective_id(a) == a.id,
        a.id.len() == 0 && b.id.len() == 0 && a.index != b.index ==> effective_id(a)
            != effective_id(b),
{
    if a.id.len() == 0 && b.id.len() == 0 && effective_id(a) == effective_id(b) {
        let x = effective_id(a);
        assert(x.skip("call_"@.len() as int) =~= text::decimal(a.index as nat));
        assert(x.skip("call_"@.len() as int) =~= text::decimal(b.index as nat));
        law_decimals_stand_for_their_number(a.index as nat);
        law_decimals_stand_for_their_number(b.index as nat);
    }
}

/// A finished message says what was said, and leaves out what was not.
pub proof fn law_finished_messages_hold_what_came(a: AccView)
    ensures
        ({
            let m = finished_message(a);
            &&& m.role == role_name(Role::Assistant)
            &&& a.text.len() > 0 ==> m.content == Some(a.text)
            &&& a.text.len() == 0 ==> m.content is None
            &&& a.reasoning.len() > 0 ==> m.reasoning_content == Some(a.reasoning)
            &&& a.reasoning.len() == 0 ==> m.reasoning_content is None
            &&& m.tool_call_id is None
            &&& a.calls.len() == 0 ==> m.tool_calls is None
        }),
{
    if a.calls.len() == 0 {
        reveal(Seq::filter);
        let none = crate::api::sse::by_index(a.calls);
        assert(none =~= Seq::<PartialView>::empty());
        assert(none.filter(|c: PartialView| c.name.len() > 0).len() == 0);
    }
}

/// A message with one call, and that with a name, holds that call.
pub proof fn law_a_call_reaches_the_message(a: AccView, c: PartialView)
    requires
        a.calls == seq![c],
        c.name.len() > 0,
    ensures
        finished_message(a).tool_calls == Some(seq![crate::api::sse::as_call(c)]),
{
    reveal(Seq::filter);
    let keep = |c: PartialView| c.name.len() > 0;
    let none = Seq::<PartialView>::empty();
    assert(a.calls.drop_last() =~= none);
    assert(crate::api::sse::by_index(none) =~= none);
    let sorted = crate::api::sse::by_index(a.calls);
    assert(sorted =~= seq![c]);
    assert(sorted.drop_last() =~= none);
    assert(none.filter(keep) =~= none);
    assert(sorted.filter(keep) =~= seq![c]);
    assert(crate::api::sse::finished_calls(a.calls) =~= seq![crate::api::sse::as_call(c)]);
}

} // verus!
