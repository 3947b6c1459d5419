//! What holds of a whole stream, however many chunks it comes in.
use vstd::prelude::*;
use crate::api::sse::{
    after_choice, after_choices, after_chunk, after_fragment, after_fragments, as_call, assembled,
    by_index, distinct_indices, finished_calls, finished_message, is_ready, is_sorted,
    law_calls_come_in_order, law_interleaving_does_not_matter, lemma_fragments_keep_distinct,
    lemma_slot_exists, nonempty, nothing_yet, of_index, opt_text, piece_event, ready_calls,
    slot_from, with_slot, AccView, EventView, PartialView,
};
use crate::api::types::{no_usage, ChatChunk, ChunkChoice, ToolCallDelta, Usage};

verus! {

/// The accumulator after chunks, the oldest first, and the events they gave.
pub open spec fn after_chunks(a: AccView, chunks: Seq<ChatChunk>) -> (AccView, Seq<EventView>)
    decreases chunks.len(),
{
    if chunks.len() == 0 {
        (a, Seq::empty())
    } else {
        let (mid, events) = after_chunks(a, chunks.drop_last());
        let (end, more) = after_chunk(mid, chunks.last());
        (end, events + more)
    }
}

// ---------------------------------------------------------------------------
// What a stream carries
// ---------------------------------------------------------------------------

/// The text of some choices.
pub open spec fn text_in(cs: Seq<ChunkChoice>) -> Seq<char>
    decreases cs.len(),
{
    if cs.len() == 0 {
        Seq::empty()
    } else {
        text_in(cs.drop_last()) + opt_text(cs.last().delta.content)
    }
}

/// The reasoning of some choices.
pub open spec fn reasoning_in(cs: Seq<ChunkChoice>) -> Seq<char>
    decreases cs.len(),
{
    if cs.len() == 0 {
        Seq::empty()
    } else {
        reasoning_in(cs.drop_last()) + opt_text(cs.last().delta.reasoning_content)
    }
}

/// The fragments of calls in a choice.
pub open spec fn fragments_of(c: ChunkChoice) -> Seq<ToolCallDelta> {
    match c.delta.tool_calls {
        Some(ds) => ds@,
        None => Seq::empty(),
    }
}

/// The fragments of calls in some choices.
pub open spec fn fragments_in(cs: Seq<ChunkChoice>) -> Seq<ToolCallDelta>
    decreases cs.len(),
{
    if cs.len() == 0 {
        Seq::empty()
    } else {
        fragments_in(cs.drop_last()) + fragments_of(cs.last())
    }
}

/// The text of a stream.
pub open spec fn streamed_text(chunks: Seq<ChatChunk>) -> Seq<char>
    decreases chunks.len(),
{
    if chunks.len() == 0 {
        Seq::empty()
    } else {
        streamed_text(chunks.drop_last()) + text_in(chunks.last().choices@)
    }
}

/// The reasoning of a stream.
pub open spec fn streamed_reasoning(chunks: Seq<ChatChunk>) -> Seq<char>
    decreases chunks.len(),
{
    if chunks.len() == 0 {
        Seq::empty()
    } else {
        streamed_reasoning(chunks.drop_last()) + reasoning_in(chunks.last().choices@)
    }
}

/// The fragments of calls in a stream, in the order of their arrival.
pub open spec fn streamed_fragments(chunks: Seq<ChatChunk>) -> Seq<ToolCallDelta>
    decreases chunks.len(),
{
    if chunks.len() == 0 {
        Seq::empty()
    } else {
        streamed_fragments(chunks.drop_last()) + fragments_in(chunks.last().choices@)
    }
}

/// The latest usage in a stream.
pub open spec fn streamed_usage(chunks: Seq<ChatChunk>) -> Usage
    decreases chunks.len(),
{
    if chunks.len() == 0 {
        no_usage()
    } else {
        match chunks.last().usage {
            Some(u) => u,
            None => streamed_usage(chunks.drop_last()),
        }
    }
}

/// The text that events tell of.
pub open spec fn told_text(events: Seq<EventView>) -> Seq<char>
    decreases events.len(),
{
    if events.len() == 0 {
        Seq::empty()
    } else {
        told_text(events.drop_last()) + (match events.last() {
            EventView::Text(t) => t,
            _ => Seq::empty(),
        })
    }
}

/// The reasoning that events tell of.
pub open spec fn told_reasoning(events: Seq<EventView>) -> Seq<char>
    decreases events.len(),
{
    if events.len() == 0 {
        Seq::empty()
    } else {
        told_reasoning(events.drop_last()) + (match events.last() {
            EventView::Reasoning(t) => t,
            _ => Seq::empty(),
        })
    }
}

/// How many calls events announce.
pub open spec fn announcements(events: Seq<EventView>) -> nat
    decreases events.len(),
{
    if events.len() == 0 {
        0
    } else {
        announcements(events.drop_last()) + (if events.last() is ToolCallReady {
            1nat
        } else {
            0nat
        })
    }
}

// ---------------------------------------------------------------------------
// Joining
// ---------------------------------------------------------------------------

proof fn lemma_told_sum(a: Seq<EventView>, b: Seq<EventView>)
    ensures
        told_text(a + b) == told_text(a) + told_text(b),
        told_reasoning(a + b) == told_reasoning(a) + told_reasoning(b),
        announcements(a + b) == announcements(a) + announcements(b),
    decreases b.len(),
{
    if b.len() == 0 {
        assert(a + b =~= a);
        assert(told_text(a) + told_text(b) =~= told_text(a));
        assert(told_reasoning(a) + told_reasoning(b) =~= told_reasoning(a));
    } else {
        lemma_told_sum(a, b.drop_last());
        assert((a + b).drop_last() =~= a + b.drop_last());
        assert((a + b).last() == b.last());
        assert(told_text(a + b) =~= told_text(a) + told_text(b));
        assert(told_reasoning(a + b) =~= told_reasoning(a) + told_reasoning(b));
    }
}

proof fn lemma_told_ready(calls: Seq<PartialView>)
    ensures
        ({
            let events = calls.map_values(|c: PartialView| EventView::ToolCallReady(as_call(c)));
            &&& told_text(events) == Seq::<char>::empty()
            &&& told_reasoning(events) == Seq::<char>::empty()
            &&& announcements(events) == calls.len()
        }),
    decreases calls.len(),
{
    let events = calls.map_values(|c: PartialView| EventView::ToolCallReady(as_call(c)));
    if calls.len() > 0 {
        lemma_told_ready(calls.drop_last());
        assert(events.drop_last() =~= calls.drop_last().map_values(
            |c: PartialView| EventView::ToolCallReady(as_call(c)),
        ));
        assert(told_text(events) =~= Seq::<char>::empty());
        assert(told_reasoning(events) =~= Seq::<char>::empty());
    }
}

proof fn lemma_told_pieces(text: Seq<char>, reasoning: Seq<char>)
    ensures
        ({
            let said = piece_event(text, EventView::Text(text)) + piece_event(
                reasoning,
                EventView::Reasoning(reasoning),
            );
            &&& told_text(said) == text
            &&& told_reasoning(said) == reasoning
            &&& announcements(said) == 0
        }),
{
    let a = piece_event(text, EventView::Text(text));
    let b = piece_event(reasoning, EventView::Reasoning(reasoning));
    lemma_told_sum(a, b);
    reveal_with_fuel(told_text, 2);
    reveal_with_fuel(told_reasoning, 2);
    reveal_with_fuel(announcements, 2);
    if text.len() > 0 {
        assert(a.drop_last() =~= Seq::<EventView>::empty());
    }
    if reasoning.len() > 0 {
        assert(b.drop_last() =~= Seq::<EventView>::empty());
    }
    assert(told_text(a) =~= text);
    assert(told_text(b) =~= Seq::<char>::empty());
    assert(told_reasoning(a) =~= Seq::<char>::empty());
    assert(told_reasoning(b) =~= reasoning);
    assert(text + Seq::<char>::empty() =~= text);
    assert(Seq::<char>::empty() + reasoning =~= reasoning);
}

proof fn lemma_fragments_sum(
    calls: Seq<PartialView>,
    x: Seq<ToolCallDelta>,
    y: Seq<ToolCallDelta>,
)
    ensures
        after_fragments(calls, x + y) == after_fragments(after_fragments(calls, x), y),
    decreases y.len(),
{
    if y.len() == 0 {
        assert(x + y =~= x);
    } else {
        lemma_fragments_sum(calls, x, y.drop_last());
        assert((x + y).drop_last() =~= x + y.drop_last());
        assert((x + y).last() == y.last());
    }
}

proof fn lemma_choices(a: AccView, cs: Seq<ChunkChoice>)
    ensures
        ({
            let (end, events) = after_choices(a, cs);
            &&& end.text == a.text + text_in(cs)
            &&& end.reasoning == a.reasoning + reasoning_in(cs)
            &&& end.calls == after_fragments(a.calls, fragments_in(cs))
            &&& end.usage == a.usage
            &&& told_text(events) == text_in(cs)
            &&& told_reasoning(events) == reasoning_in(cs)
        }),
    decreases cs.len(),
{
    if cs.len() == 0 {
        assert(a.text + text_in(cs) =~= a.text);
        assert(a.reasoning + reasoning_in(cs) =~= a.reasoning);
    } else {
        let front = cs.drop_last();
        let c = cs.last();
        lemma_choices(a, front);
        let (mid, events) = after_choices(a, front);
        let (end, more) = after_choice(mid, c);
        let text = opt_text(c.delta.content);
        let reasoning = opt_text(c.delta.reasoning_content);
        let said = piece_event(text, EventView::Text(text)) + piece_event(
            reasoning,
            EventView::Reasoning(reasoning),
        );
        lemma_told_pieces(text, reasoning);
        lemma_fragments_sum(a.calls, fragments_in(front), fragments_of(c));
        assert(end.calls == after_fragments(mid.calls, fragments_of(c)));
        let ready = ready_calls(end.calls, mid.announced);
        let told = ready.map_values(|c: PartialView| EventView::ToolCallReady(as_call(c)));
        lemma_told_ready(ready);
        lemma_told_sum(said, told);
        lemma_told_sum(events, more);
        assert(told_text(more) =~= text);
        assert(told_reasoning(more) =~= reasoning);
        assert(end.text =~= a.text + text_in(cs));
        assert(end.reasoning =~= a.reasoning + reasoning_in(cs));
    }
}

/// Nothing of a stream is lost on the way, and nothing is added: the text that
/// the events of all pushes tell of is the text that was streamed, the
/// accumulator holds that text, and its calls are put together from all
/// fragments in the order of their arrival. The same holds of reasoning. The
/// usage is the latest.
pub proof fn law_streams_are_gathered(chunks: Seq<ChatChunk>)
    ensures
        ({
            let (end, events) = after_chunks(nothing_yet(), chunks);
            &&& end.text == streamed_text(chunks)
            &&& end.reasoning == streamed_reasoning(chunks)
            &&& end.calls == after_fragments(Seq::empty(), streamed_fragments(chunks))
            &&& end.usage == streamed_usage(chunks)
            &&& told_text(events) == streamed_text(chunks)
            &&& told_reasoning(events) == streamed_reasoning(chunks)
        }),
    decreases chunks.len(),
{
    if chunks.len() > 0 {
        let front = chunks.drop_last();
        let last = chunks.last();
        law_streams_are_gathered(front);
        let (mid, events) = after_chunks(nothing_yet(), front);
        let start = AccView {
            usage: match last.usage {
                Some(u) => u,
                None => mid.usage,
            },
            ..mid
        };
        lemma_choices(start, last.choices@);
        lemma_fragments_sum(
            Seq::empty(),
            streamed_fragments(front),
            fragments_in(last.choices@),
        );
        lemma_told_sum(events, after_chunk(mid, last).1);
    }
}

// ---------------------------------------------------------------------------
// The finished message
// ---------------------------------------------------------------------------

/// The latest id among fragments, where one is not empty.
pub open spec fn latest_id(ds: Seq<ToolCallDelta>) -> Seq<char>
    decreases ds.len(),
{
    if ds.len() == 0 {
        Seq::empty()
    } else if opt_text(ds.last().id).len() > 0 {
        opt_text(ds.last().id)
    } else {
        latest_id(ds.drop_last())
    }
}

/// The names in fragments, joined.
pub open spec fn joined_name(ds: Seq<ToolCallDelta>) -> Seq<char>
    decreases ds.len(),
{
    if ds.len() == 0 {
        Seq::empty()
    } else {
        joined_name(ds.drop_last()) + (match ds.last().function {
            Some(f) => opt_text(f.name),
            None => Seq::empty(),
        })
    }
}

/// The arguments in fragments, joined.
pub open spec fn joined_arguments(ds: Seq<ToolCallDelta>) -> Seq<char>
    decreases ds.len(),
{
    if ds.len() == 0 {
        Seq::empty()
    } else {
        joined_arguments(ds.drop_last()) + (match ds.last().function {
            Some(f) => opt_text(f.arguments),
            None => Seq::empty(),
        })
    }
}

/// The call that its fragments make up.
pub open spec fn call_from(index: usize, ds: Seq<ToolCallDelta>) -> PartialView {
    PartialView {
        index,
        id: latest_id(ds),
        name: joined_name(ds),
        arguments: joined_arguments(ds),
    }
}

proof fn lemma_assembled(index: usize, ds: Seq<ToolCallDelta>)
    ensures
        assembled(index, ds) == call_from(index, ds),
    decreases ds.len(),
{
    if ds.len() > 0 {
        lemma_assembled(index, ds.drop_last());
        let c = assembled(index, ds.drop_last());
        assert(assembled(index, ds).name =~= joined_name(ds));
        assert(assembled(index, ds).arguments =~= joined_arguments(ds));
    }
}

/// Whether indices ascend.
pub open spec fn ascending(ix: Seq<usize>) -> bool {
    forall|i: int, j: int| 0 <= i < j < ix.len() ==> #[trigger] ix[i] < #[trigger] ix[j]
}

/// Whether fragments make up a call of an index: there is one of them, and
/// together they name it.
pub open spec fn makes_call(ds: Seq<ToolCallDelta>, index: usize) -> bool {
    of_index(ds, index).len() > 0 && joined_name(of_index(ds, index)).len() > 0
}

/// The calls of given indices.
pub open spec fn calls_at(ds: Seq<ToolCallDelta>, ix: Seq<usize>) -> Seq<PartialView> {
    ix.map_values(|i: usize| call_from(i, of_index(ds, i)))
}

proof fn lemma_named_sorted(calls: Seq<PartialView>)
    requires
        is_sorted(calls),
        distinct_indices(calls),
    ensures
        ({
            let named = calls.filter(|c: PartialView| c.name.len() > 0);
            &&& ascending(named.map_values(|c: PartialView| c.index))
            &&& calls.len() > 0 && named.len() > 0 ==> named.last().index <= calls.last().index
            &&& forall|c: PartialView| #[trigger]
                named.contains(c) <==> calls.contains(c) && c.name.len() > 0
        }),
    decreases calls.len(),
{
    reveal(Seq::filter);
    let keep = |c: PartialView| c.name.len() > 0;
    let named = calls.filter(keep);
    if calls.len() > 0 {
        let front = calls.drop_last();
        assert(is_sorted(front)) by {
            assert forall|i: int, j: int| 0 <= i < j < front.len() implies (
            #[trigger] front[i]).index <= (#[trigger] front[j]).index by {
                assert(front[i] == calls[i] && front[j] == calls[j]);
            }
        }
        assert(distinct_indices(front)) by {
            assert forall|i: int, j: int|
                0 <= i < front.len() && 0 <= j < front.len() && i != j implies (
            #[trigger] front[i]).index != (#[trigger] front[j]).index by {
                assert(front[i] == calls[i] && front[j] == calls[j]);
            }
        }
        lemma_named_sorted(front);
        let before = front.filter(keep);
        let ix = named.map_values(|c: PartialView| c.index);
        let bx = before.map_values(|c: PartialView| c.index);
        let last = calls.last();
        if front.len() > 0 {
            assert(front.last() == calls[calls.len() - 2]);
            assert(calls[calls.len() - 2].index <= calls[calls.len() - 1].index);
            assert(calls[calls.len() - 2].index != calls[calls.len() - 1].index);
        }
        if last.name.len() > 0 {
            assert(named == before.push(last));
            assert forall|i: int, j: int| 0 <= i < j < ix.len() implies #[trigger] ix[i]
                < #[trigger] ix[j] by {
                if j < before.len() {
                    assert(bx[i] < bx[j]);
                } else {
                    let top = before.len() - 1;
                    if i < top {
                        assert(bx[i] < bx[top]);
                    }
                    assert(bx[top] == before.last().index);
                    assert(before.len() > 0 && front.len() > 0) by {
                        assert(before.contains(before[0]));
                    }
                }
            }
        } else {
            assert(named == before);
            assert(ix =~= bx);
            if named.len() > 0 {
                assert(before.contains(before[0]));
            }
        }
        assert forall|c: PartialView| #[trigger]
            named.contains(c) <==> calls.contains(c) && c.name.len() > 0 by {
            if named.contains(c) {
                let i = choose|i: int| 0 <= i < named.len() && named[i] == c;
                if last.name.len() > 0 && i == before.len() {
                    assert(calls[calls.len() - 1] == c);
                } else {
                    assert(before[i] == c);
                    assert(before.contains(c));
                    let k = choose|k: int| 0 <= k < front.len() && front[k] == c;
                    assert(calls[k] == c);
                }
            }
            if calls.contains(c) && c.name.len() > 0 {
                let k = choose|k: int| 0 <= k < calls.len() && calls[k] == c;
                if k < front.len() {
                    assert(front[k] == c);
                    assert(before.contains(c));
                    let i = choose|i: int| 0 <= i < before.len() && before[i] == c;
                    assert(named[i] == c);
                } else {
                    assert(named[named.len() - 1] == c);
                }
            }
        }
    } else {
        assert forall|c: PartialView| #[trigger]
            named.contains(c) <==> calls.contains(c) && c.name.len() > 0 by {}
    }
}

proof fn lemma_permuted_distinct(a: Seq<PartialView>, b: Seq<PartialView>)
    requires
        distinct_indices(a),
        a.to_multiset() == b.to_multiset(),
    ensures
        distinct_indices(b),
        forall|c: PartialView| #[trigger] b.contains(c) <==> a.contains(c),
{
    broadcast use vstd::seq_lib::group_to_multiset_ensures;

    assert forall|c: PartialView| #[trigger] b.contains(c) <==> a.contains(c) by {
        assert(a.contains(c) <==> a.to_multiset().count(c) > 0);
        assert(b.contains(c) <==> b.to_multiset().count(c) > 0);
    }
    assert(a.no_duplicates()) by {
        assert forall|i: int, j: int|
            0 <= i < a.len() && 0 <= j < a.len() && i != j implies a[i] != a[j] by {
            assert(a[i].index != a[j].index);
        }
    }
    a.lemma_multiset_has_no_duplicates();
    b.lemma_multiset_has_no_duplicates_conv();
    assert forall|i: int, j: int| 0 <= i < b.len() && 0 <= j < b.len() && i != j implies (
    #[trigger] b[i]).index != (#[trigger] b[j]).index by {
        assert(b[i] != b[j]);
        assert(b.contains(b[i]) && b.contains(b[j]));
        let k = choose|k: int| 0 <= k < a.len() && a[k] == b[i];
        let l = choose|l: int| 0 <= l < a.len() && a[l] == b[j];
        assert(k != l);
        assert(a[k].index != a[l].index);
    }
}

proof fn lemma_slot_has_fragments(ds: Seq<ToolCallDelta>, i: int)
    requires
        0 <= i < after_fragments(Seq::empty(), ds).len(),
    ensures
        of_index(ds, after_fragments(Seq::empty(), ds)[i].index).len() > 0,
    decreases ds.len(),
{
    let calls = after_fragments(Seq::empty(), ds);
    if ds.len() > 0 {
        let front = ds.drop_last();
        let before = after_fragments(Seq::empty(), front);
        let d = ds.last();
        let all = with_slot(before, d.index);
        if slot_from(before, d.index, 0) is None {
            lemma_slot_exists(all, d.index, 0, before.len() as int);
        }
        lemma_slot_is(all, d.index, 0);
        assert(calls == after_fragment(before, d));
        assert(calls[i].index == all[i].index);
        reveal(Seq::filter);
        if i < before.len() {
            assert(all[i] == before[i]);
            lemma_slot_has_fragments(front, i);
        } else {
            assert(all[i].index == d.index);
        }
    }
}

/// The finished message holds one call for each index whose fragments name it,
/// in ascending order of the indices. Each call is made of the fragments of its
/// own index, however they were interleaved with others: the id is the latest
/// that is not empty, the arguments are joined in the order of their arrival.
/// Text and reasoning are what was streamed, absent where they are empty.
pub proof fn law_finished_messages_hold_the_stream(chunks: Seq<ChatChunk>)
    ensures
        ({
            let m = finished_message(after_chunks(nothing_yet(), chunks).0);
            let ds = streamed_fragments(chunks);
            &&& m.content == nonempty(streamed_text(chunks))
            &&& m.reasoning_content == nonempty(streamed_reasoning(chunks))
            &&& exists|ix: Seq<usize>| #[trigger]
                ascending(ix) && (forall|i: usize| #[trigger] ix.contains(i) <==> makes_call(ds, i))
                    && m.tool_calls == (if ix.len() > 0 {
                    Some(calls_at(ds, ix).map_values(|c: PartialView| as_call(c)))
                } else {
                    None
                })
        }),
{
    law_streams_are_gathered(chunks);
    let ds = streamed_fragments(chunks);
    let calls = after_fragments(Seq::empty(), ds);
    law_interleaving_does_not_matter(ds);
    law_calls_come_in_order(calls);
    let sorted = by_index(calls);
    lemma_permuted_distinct(calls, sorted);
    lemma_named_sorted(sorted);
    let named = sorted.filter(|c: PartialView| c.name.len() > 0);
    let ix = named.map_values(|c: PartialView| c.index);
    assert forall|k: int| 0 <= k < named.len() implies #[trigger] named[k] == call_from(
        named[k].index,
        of_index(ds, named[k].index),
    ) by {
        assert(named.contains(named[k]));
        assert(calls.contains(named[k]));
        lemma_assembled(named[k].index, of_index(ds, named[k].index));
    }
    assert(calls_at(ds, ix) =~= named);
    assert forall|i: usize| #[trigger] ix.contains(i) <==> makes_call(ds, i) by {
        lemma_assembled(i, of_index(ds, i));
        if ix.contains(i) {
            let k = choose|k: int| 0 <= k < ix.len() && ix[k] == i;
            assert(named[k].index == i);
            assert(named.contains(named[k]));
            let s = choose|s: int| 0 <= s < calls.len() && calls[s] == named[k];
            lemma_slot_has_fragments(ds, s);
        }
        if makes_call(ds, i) {
            let mine = of_index(ds, i);
            ds.lemma_filter_pred(|d: ToolCallDelta| d.index == i, 0);
            assert(ds.contains(mine[0])) by {
                lemma_filter_member(ds, i, mine[0]);
            }
            let k = choose|k: int| 0 <= k < ds.len() && ds[k] == mine[0];
            assert(slot_from(calls, ds[k].index, 0) is Some);
            let s = slot_from(calls, i, 0)->0;
            lemma_slot_is(calls, i, 0);
            assert(calls[s] == assembled(i, mine));
            assert(calls.contains(calls[s]));
            assert(named.contains(calls[s]));
            let n = choose|n: int| 0 <= n < named.len() && named[n] == calls[s];
            assert(ix[n] == i);
        }
    }
    assert(ascending(ix));
    assert(finished_calls(calls) =~= calls_at(ds, ix).map_values(|c: PartialView| as_call(c)));
}

proof fn lemma_filter_member(ds: Seq<ToolCallDelta>, index: usize, d: ToolCallDelta)
    requires
        of_index(ds, index).contains(d),
    ensures
        ds.contains(d),
    decreases ds.len(),
{
    reveal(Seq::filter);
    if ds.len() > 0 {
        let front = ds.drop_last();
        let k = choose|k: int| 0 <= k < of_index(ds, index).len() && of_index(ds, index)[k] == d;
        if of_index(front, index).contains(d) {
            lemma_filter_member(front, index, d);
            let i = choose|i: int| 0 <= i < front.len() && front[i] == d;
            assert(ds[i] == d);
        } else {
            if k < of_index(front, index).len() {
                assert(of_index(front, index)[k] == d);
            }
            assert(ds[ds.len() - 1] == d);
        }
    }
}

proof fn lemma_slot_is(calls: Seq<PartialView>, index: usize, from: int)
    requires
        0 <= from,
    ensures
        slot_from(calls, index, from) matches Some(k) ==> from <= k < calls.len() && calls[k].index
            == index,
    decreases calls.len() - from,
{
    if from < calls.len() && calls[from].index != index {
        lemma_slot_is(calls, index, from + 1);
    }
}

// ---------------------------------------------------------------------------
// Announcements
// ---------------------------------------------------------------------------

proof fn lemma_choice_announces(a: AccView, c: ChunkChoice)
    requires
        distinct_indices(a.calls),
        a.announced.no_duplicates(),
    ensures
        ({
            let (end, events) = after_choice(a, c);
            &&& distinct_indices(end.calls)
            &&& end.announced.no_duplicates()
            &&& a.announced.is_prefix_of(end.announced)
            &&& announcements(events) == end.announced.len() - a.announced.len()
            &&& c.finish_reason is None ==> end.announced == a.announced
        }),
{
    let (end, events) = after_choice(a, c);
    lemma_fragments_keep_distinct(a.calls, fragments_of(c));
    assert(end.calls == after_fragments(a.calls, fragments_of(c)));
    let text = opt_text(c.delta.content);
    let reasoning = opt_text(c.delta.reasoning_content);
    let said = piece_event(text, EventView::Text(text)) + piece_event(
        reasoning,
        EventView::Reasoning(reasoning),
    );
    lemma_told_pieces(text, reasoning);
    if c.finish_reason is Some {
        let keep = |p: PartialView| is_ready(p, a.announced);
        let ready = ready_calls(end.calls, a.announced);
        let told = ready.map_values(|c: PartialView| EventView::ToolCallReady(as_call(c)));
        lemma_told_ready(ready);
        lemma_told_sum(said, told);
        lemma_ready_distinct(end.calls, a.announced);
        assert forall|i: int, j: int|
            0 <= i < end.announced.len() && 0 <= j < end.announced.len() && i
                != j implies end.announced[i] != end.announced[j] by {
            let n = a.announced.len() as int;
            if i >= n && j >= n {
                assert(ready[i - n].index != ready[j - n].index);
            } else if i >= n && j < n {
                end.calls.lemma_filter_pred(keep, i - n);
                assert(a.announced.contains(a.announced[j]));
            } else if i < n && j >= n {
                end.calls.lemma_filter_pred(keep, j - n);
                assert(a.announced.contains(a.announced[i]));
            }
        }
    }
    assert(a.announced =~= end.announced.take(a.announced.len() as int));
}

proof fn lemma_ready_distinct(calls: Seq<PartialView>, announced: Seq<usize>)
    requires
        distinct_indices(calls),
    ensures
        distinct_indices(ready_calls(calls, announced)),
        forall|c: PartialView| #[trigger]
            ready_calls(calls, announced).contains(c) ==> calls.contains(c),
    decreases calls.len(),
{
    reveal(Seq::filter);
    if calls.len() > 0 {
        let front = calls.drop_last();
        let last = calls.last();
        assert(distinct_indices(front)) by {
            assert forall|i: int, j: int|
                0 <= i < front.len() && 0 <= j < front.len() && i != j implies (
            #[trigger] front[i]).index != (#[trigger] front[j]).index by {
                assert(front[i] == calls[i] && front[j] == calls[j]);
            }
        }
        lemma_ready_distinct(front, announced);
        let before = ready_calls(front, announced);
        let ready = ready_calls(calls, announced);
        assert forall|c: PartialView| #[trigger] ready.contains(c) implies calls.contains(c) by {
            let i = choose|i: int| 0 <= i < ready.len() && ready[i] == c;
            if i < before.len() {
                assert(before[i] == c);
                assert(before.contains(c));
                let k = choose|k: int| 0 <= k < front.len() && front[k] == c;
                assert(calls[k] == c);
            } else {
                assert(calls[calls.len() - 1] == c);
            }
        }
        assert forall|i: int, j: int|
            0 <= i < ready.len() && 0 <= j < ready.len() && i != j implies (
        #[trigger] ready[i]).index != (#[trigger] ready[j]).index by {
            if i < before.len() && j < before.len() {
                assert(before[i].index != before[j].index);
            } else {
                let other = if i < before.len() {
                    i
                } else {
                    j
                };
                assert(before.contains(before[other]));
                let k = choose|k: int| 0 <= k < front.len() && front[k] == before[other];
                assert(calls[k].index != calls[calls.len() - 1].index);
            }
        }
    }
}

proof fn lemma_choices_announce(a: AccView, cs: Seq<ChunkChoice>)
    requires
        distinct_indices(a.calls),
        a.announced.no_duplicates(),
    ensures
        ({
            let (end, events) = after_choices(a, cs);
            &&& distinct_indices(end.calls)
            &&& end.announced.no_duplicates()
            &&& a.announced.is_prefix_of(end.announced)
            &&& announcements(events) == end.announced.len() - a.announced.len()
            &&& (forall|i: int| 0 <= i < cs.len() ==> (#[trigger] cs[i]).finish_reason is None)
                ==> end.announced == a.announced
        }),
    decreases cs.len(),
{
    if cs.len() > 0 {
        let front = cs.drop_last();
        lemma_choices_announce(a, front);
        let (mid, events) = after_choices(a, front);
        lemma_choice_announces(mid, cs.last());
        let (end, more) = after_choice(mid, cs.last());
        lemma_told_sum(events, more);
        assert(a.announced =~= end.announced.take(a.announced.len() as int)) by {
            assert(a.announced == mid.announced.take(a.announced.len() as int));
            assert(mid.announced == end.announced.take(mid.announced.len() as int));
        }
        if forall|i: int| 0 <= i < cs.len() ==> (#[trigger] cs[i]).finish_reason is None {
            assert forall|i: int| 0 <= i < front.len() implies (
            #[trigger] front[i]).finish_reason is None by {
                assert(front[i] == cs[i]);
            }
            assert(cs[cs.len() - 1].finish_reason is None);
        }
    } else {
        assert(a.announced =~= a.announced.take(a.announced.len() as int));
    }
}

/// Over a whole stream each call is announced at most once: every announcement
/// adds its call's index to those that were announced, and none stands there
/// twice. A chunk without a finish reason announces nothing.
pub proof fn law_streams_announce_once(chunks: Seq<ChatChunk>, next: ChatChunk)
    ensures
        ({
            let (end, events) = after_chunks(nothing_yet(), chunks);
            &&& distinct_indices(end.calls)
            &&& end.announced.no_duplicates()
            &&& announcements(events) == end.announced.len()
            &&& (forall|i: int|
                0 <= i < next.choices@.len() ==> (
                #[trigger] next.choices@[i]).finish_reason is None) ==> announcements(
                after_chunk(end, next).1,
            ) == 0
        }),
    decreases chunks.len(),
{
    if chunks.len() > 0 {
        let front = chunks.drop_last();
        law_streams_announce_once(front, chunks.last());
        let (mid, events) = after_chunks(nothing_yet(), front);
        let start = AccView {
            usage: match chunks.last().usage {
                Some(u) => u,
                None => mid.usage,
            },
            ..mid
        };
        lemma_choices_announce(start, chunks.last().choices@);
        lemma_told_sum(events, after_chunk(mid, chunks.last()).1);
    }
    let end = after_chunks(nothing_yet(), chunks).0;
    let start = AccView {
        usage: match next.usage {
            Some(u) => u,
            None => end.usage,
        },
        ..end
    };
    lemma_choices_announce(start, next.choices@);
}

} // verus!
