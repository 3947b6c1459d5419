//! What keys do to the text that is typed.
use vstd::prelude::*;
use crate::laws::text::{is_blank, law_blank_text_trims_to_nothing};
use crate::text;
use crate::text::is_white;
use crate::tui::input::{
    broken, erased, erased_forward, gap_end, gap_start, is_area, line_at, moved, pasted, recalled,
    remembered, returned, run_end, run_start, showing, stepped_down, stepped_left, stepped_right,
    stepped_up, typed, word_after, word_before, word_erased, AreaView,
};
use crate::tui::keys::{
    above, after_key, answer_of, below, nothing_typed, typed_text, EffectView, Key, KeyCode,
};
use crate::tui::{AppView, OverlayView};
use crate::agent::calls::PermissionResponse;
use crate::commands::{all_commands, completions};
use crate::config::PermissionMode;

verus! {

// ---------------------------------------------------------------------------
// The text round the cursor
// ---------------------------------------------------------------------------

/// Lines, each with the break that ends it.
pub open spec fn ended(lines: Seq<Seq<char>>) -> Seq<char>
    decreases lines.len(),
{
    if lines.len() == 0 {
        Seq::empty()
    } else {
        ended(lines.drop_last()) + lines.last() + seq!['\n']
    }
}

/// Lines, each behind the break that begins it.
pub open spec fn begun(lines: Seq<Seq<char>>) -> Seq<char>
    decreases lines.len(),
{
    if lines.len() == 0 {
        Seq::empty()
    } else {
        begun(lines.drop_last()) + seq!['\n'] + lines.last()
    }
}

/// The text before the cursor.
pub open spec fn head(a: AreaView) -> Seq<char> {
    ended(a.lines.take(a.row)) + a.lines[a.row].take(a.col)
}

/// The text behind the cursor.
pub open spec fn tail(a: AreaView) -> Seq<char> {
    a.lines[a.row].skip(a.col) + begun(a.lines.skip(a.row + 1))
}

proof fn lemma_begun_first(line: Seq<char>, lines: Seq<Seq<char>>)
    ensures
        begun(seq![line] + lines) == seq!['\n'] + line + begun(lines),
    decreases lines.len(),
{
    let all = seq![line] + lines;
    if lines.len() == 0 {
        assert(all.drop_last() =~= Seq::<Seq<char>>::empty());
        assert(begun(all.drop_last()) =~= Seq::<char>::empty());
        assert(begun(lines) =~= Seq::<char>::empty());
        assert(begun(all) =~= seq!['\n'] + line + begun(lines));
    } else {
        lemma_begun_first(line, lines.drop_last());
        assert(all.drop_last() =~= seq![line] + lines.drop_last());
        assert(begun(all) =~= seq!['\n'] + line + begun(lines));
    }
}

proof fn lemma_joined_parts(before: Seq<Seq<char>>, line: Seq<char>, after: Seq<Seq<char>>)
    ensures
        text::joined(before + seq![line] + after, seq!['\n']) == ended(before) + line + begun(after),
    decreases before.len() + after.len(),
{
    let all = before + seq![line] + after;
    if after.len() > 0 {
        lemma_joined_parts(before, line, after.drop_last());
        assert(all.drop_last() =~= before + seq![line] + after.drop_last());
        assert(text::joined(all, seq!['\n']) =~= ended(before) + line + begun(after));
    } else if before.len() > 0 {
        let front = before.drop_last();
        lemma_joined_parts(front, before.last(), after);
        assert(all.drop_last() =~= before);
        assert(front + seq![before.last()] + after =~= before);
        assert(text::joined(all, seq!['\n']) =~= ended(before) + line + begun(after));
    } else {
        assert(all =~= seq![line]);
        assert(ended(before) + line + begun(after) =~= line);
    }
}

/// What is typed is what stands before the cursor and what stands behind it.
pub proof fn law_the_cursor_parts_the_text(a: AreaView)
    requires
        is_area(a),
    ensures
        typed_text(a) == head(a) + tail(a),
{
    reveal_strlit("\n");
    assert("\n"@ =~= seq!['\n']);
    let line = a.lines[a.row];
    lemma_joined_parts(a.lines.take(a.row), line, a.lines.skip(a.row + 1));
    assert(a.lines.take(a.row) + seq![line] + a.lines.skip(a.row + 1) =~= a.lines);
    assert(line.take(a.col) + line.skip(a.col) =~= line);
    assert(typed_text(a) =~= head(a) + tail(a));
}

/// A character is typed where the cursor stands, and the cursor stands behind it.
pub proof fn law_typing_inserts(a: AreaView, c: char)
    requires
        is_area(a),
    ensures
        head(typed(a, c)) == head(a).push(c),
        tail(typed(a, c)) == tail(a),
{
    let t = typed(a, c);
    let line = a.lines[a.row];
    let with = line.take(a.col) + seq![c] + line.skip(a.col);
    assert(t.lines[a.row] == with);
    assert(t.lines.take(a.row) =~= a.lines.take(a.row));
    assert(t.lines.skip(a.row + 1) =~= a.lines.skip(a.row + 1));
    assert(with.take(a.col + 1) =~= line.take(a.col).push(c));
    assert(with.skip(a.col + 1) =~= line.skip(a.col));
    assert(head(t) =~= head(a).push(c));
}

/// A break is typed where the cursor stands, and the cursor stands behind it.
pub proof fn law_breaking_inserts_a_break(a: AreaView)
    requires
        is_area(a),
    ensures
        head(broken(a)) == head(a).push('\n'),
        tail(broken(a)) == tail(a),
{
    let b = broken(a);
    let line = a.lines[a.row];
    assert(b.lines[a.row + 1] == line.skip(a.col));
    assert(b.lines.take(a.row + 1) =~= a.lines.take(a.row).push(line.take(a.col)));
    assert(b.lines.take(a.row + 1).drop_last() =~= a.lines.take(a.row));
    assert(b.lines.skip(a.row + 2) =~= a.lines.skip(a.row + 1));
    assert(line.skip(a.col).skip(0) =~= line.skip(a.col));
    assert(line.skip(a.col).take(0) =~= Seq::<char>::empty());
    assert(head(b) =~= head(a).push('\n'));
}

/// A text is pasted where the cursor stands, and the cursor stands behind it.
pub proof fn law_pasting_inserts(a: AreaView, s: Seq<char>)
    requires
        is_area(a),
        !s.contains('\r'),
    ensures
        head(pasted(a, s)) == head(a) + s,
        tail(pasted(a, s)) == tail(a),
        is_area(pasted(a, s)),
    decreases s.len(),
{
    if s.len() == 0 {
        assert(head(a) + s =~= head(a));
    } else {
        let t = s.drop_last();
        assert forall|i: int| 0 <= i < t.len() implies t[i] != '\r' by {
            assert(s.contains(s[i]));
        }
        assert(s.contains(s.last()));
        law_pasting_inserts(a, t);
        let p = pasted(a, t);
        crate::tui::input::law_edits_keep_the_area(p, s.last(), s);
        if s.last() == '\n' {
            law_breaking_inserts_a_break(p);
        } else {
            law_typing_inserts(p, s.last());
        }
        assert(head(p).push(s.last()) =~= head(a) + s);
    }
}

/// Backspace takes away what stands before the cursor, a break as well as a
/// letter.
pub proof fn law_backspace_takes_one_away(a: AreaView)
    requires
        is_area(a),
    ensures
        head(a).len() > 0 ==> head(erased(a)) == head(a).drop_last(),
        head(a).len() == 0 ==> head(erased(a)).len() == 0,
        tail(erased(a)) == tail(a),
{
    let e = erased(a);
    let line = a.lines[a.row];
    if a.col > 0 {
        let without = line.take(a.col - 1) + line.skip(a.col);
        assert(e.lines[a.row] == without);
        assert(e.lines.take(a.row) =~= a.lines.take(a.row));
        assert(e.lines.skip(a.row + 1) =~= a.lines.skip(a.row + 1));
        assert(without.take(a.col - 1) =~= line.take(a.col).drop_last());
        assert(without.skip(a.col - 1) =~= line.skip(a.col));
        assert(head(e) =~= head(a).drop_last());
    } else if a.row > 0 {
        let prev = a.lines[a.row - 1];
        assert(e.lines[a.row - 1] == prev + line);
        assert(e.lines.take(a.row - 1) =~= a.lines.take(a.row).drop_last());
        assert(e.lines.skip(a.row) =~= a.lines.skip(a.row + 1));
        assert((prev + line).take(prev.len() as int) =~= prev);
        assert((prev + line).skip(prev.len() as int) =~= line);
        assert(line.skip(0) =~= line);
        assert(line.take(0) =~= Seq::<char>::empty());
        assert(head(e) =~= head(a).drop_last());
    } else {
        assert(a.lines.take(0) =~= Seq::<Seq<char>>::empty());
        assert(head(a) =~= Seq::<char>::empty());
    }
}

/// Delete takes away what stands behind the cursor, a break as well as a letter.
pub proof fn law_delete_takes_one_away(a: AreaView)
    requires
        is_area(a),
    ensures
        tail(a).len() > 0 ==> tail(erased_forward(a)) == tail(a).skip(1),
        tail(a).len() == 0 ==> tail(erased_forward(a)).len() == 0,
        head(erased_forward(a)) == head(a),
{
    let e = erased_forward(a);
    let line = a.lines[a.row];
    if a.col < line.len() {
        let without = line.take(a.col) + line.skip(a.col + 1);
        assert(e.lines[a.row] == without);
        assert(e.lines.take(a.row) =~= a.lines.take(a.row));
        assert(e.lines.skip(a.row + 1) =~= a.lines.skip(a.row + 1));
        assert(without.take(a.col) =~= line.take(a.col));
        assert(without.skip(a.col) =~= line.skip(a.col).skip(1));
        assert(tail(e) =~= tail(a).skip(1));
    } else if a.row + 1 < a.lines.len() {
        let next = a.lines[a.row + 1];
        let rest = a.lines.skip(a.row + 2);
        assert(e.lines[a.row] == line + next);
        assert(e.lines.take(a.row) =~= a.lines.take(a.row));
        assert(e.lines.skip(a.row + 1) =~= rest);
        assert(a.lines.skip(a.row + 1) =~= seq![next] + rest);
        lemma_begun_first(next, rest);
        assert((line + next).take(a.col) =~= line.take(a.col));
        assert((line + next).skip(a.col) =~= next);
        assert(tail(e) =~= tail(a).skip(1));
    } else {
        assert(a.lines.skip(a.row + 1) =~= Seq::<Seq<char>>::empty());
        assert(tail(a) =~= Seq::<char>::empty());
    }
}

/// A step to the left goes over one character, a break as well as a letter, and
/// changes nothing.
pub proof fn law_left_goes_back_by_one(a: AreaView)
    requires
        is_area(a),
        head(a).len() > 0,
    ensures
        head(stepped_left(a)) == head(a).drop_last(),
        tail(stepped_left(a)) == seq![head(a).last()] + tail(a),
        stepped_left(a).lines == a.lines,
{
    let m = stepped_left(a);
    let line = a.lines[a.row];
    if a.col > 0 {
        assert(line.take(a.col - 1) =~= line.take(a.col).drop_last());
        assert(line.skip(a.col - 1) =~= seq![line[a.col - 1]] + line.skip(a.col));
        assert(head(m) =~= head(a).drop_last());
        assert(tail(m) =~= seq![head(a).last()] + tail(a));
    } else if a.row > 0 {
        let prev = a.lines[a.row - 1];
        assert(a.lines.take(a.row).drop_last() =~= a.lines.take(a.row - 1));
        assert(a.lines.skip(a.row) =~= seq![line] + a.lines.skip(a.row + 1));
        lemma_begun_first(line, a.lines.skip(a.row + 1));
        assert(prev.take(prev.len() as int) =~= prev);
        assert(prev.skip(prev.len() as int) =~= Seq::<char>::empty());
        assert(line.take(0) =~= Seq::<char>::empty());
        assert(line.skip(0) =~= line);
        assert(head(m) =~= head(a).drop_last());
        assert(tail(m) =~= seq![head(a).last()] + tail(a));
    } else {
        assert(a.lines.take(0) =~= Seq::<Seq<char>>::empty());
        assert(head(a) =~= Seq::<char>::empty());
    }
}

/// A step to the right goes over one character, and changes nothing.
pub proof fn law_right_goes_on_by_one(a: AreaView)
    requires
        is_area(a),
        tail(a).len() > 0,
    ensures
        head(stepped_right(a)) == head(a).push(tail(a)[0]),
        tail(stepped_right(a)) == tail(a).skip(1),
        stepped_right(a).lines == a.lines,
{
    let m = stepped_right(a);
    let line = a.lines[a.row];
    if a.col < line.len() {
        assert(line.take(a.col + 1) =~= line.take(a.col).push(line[a.col]));
        assert(line.skip(a.col + 1) =~= line.skip(a.col).skip(1));
        assert(head(m) =~= head(a).push(tail(a)[0]));
        assert(tail(m) =~= tail(a).skip(1));
    } else if a.row + 1 < a.lines.len() {
        let next = a.lines[a.row + 1];
        let rest = a.lines.skip(a.row + 2);
        assert(a.lines.skip(a.row + 1) =~= seq![next] + rest);
        lemma_begun_first(next, rest);
        assert(a.lines.take(a.row + 1).drop_last() =~= a.lines.take(a.row));
        assert(a.lines.take(a.row + 1).last() == line);
        assert(line.take(a.col) =~= line);
        assert(line.skip(a.col) =~= Seq::<char>::empty());
        assert(next.take(0) =~= Seq::<char>::empty());
        assert(next.skip(0) =~= next);
        assert(head(m) =~= head(a).push(tail(a)[0]));
        assert(tail(m) =~= tail(a).skip(1));
    } else {
        assert(a.lines.skip(a.row + 1) =~= Seq::<Seq<char>>::empty());
        assert(tail(a) =~= Seq::<char>::empty());
    }
}

/// Steps up and down stay in the column, or at the end of a line that is shorter.
pub proof fn law_up_and_down_keep_the_column(a: AreaView)
    requires
        is_area(a),
    ensures
        a.row > 0 ==> {
            let u = stepped_up(a);
            &&& u.row == a.row - 1
            &&& u.lines == a.lines
            &&& a.col <= a.lines[a.row - 1].len() ==> u.col == a.col
            &&& a.col > a.lines[a.row - 1].len() ==> u.col == a.lines[a.row - 1].len()
        },
        a.row + 1 < a.lines.len() ==> {
            let d = stepped_down(a);
            &&& d.row == a.row + 1
            &&& d.lines == a.lines
            &&& a.col <= a.lines[a.row + 1].len() ==> d.col == a.col
            &&& a.col > a.lines[a.row + 1].len() ==> d.col == a.lines[a.row + 1].len()
        },
{
}

// ---------------------------------------------------------------------------
// Words
// ---------------------------------------------------------------------------

/// Whether a text holds no white space, and something.
pub open spec fn is_word(s: Seq<char>) -> bool {
    &&& s.len() > 0
    &&& forall|i: int| 0 <= i < s.len() ==> !is_white(#[trigger] s[i])
}

/// A step back by a word goes to where the word before the cursor begins, over
/// the white space behind it.
pub proof fn law_words_begin_behind_white_space(
    before: Seq<char>,
    word: Seq<char>,
    gap: Seq<char>,
    rest: Seq<char>,
)
    requires
        before.len() == 0 || is_white(before.last()),
        is_word(word),
        is_blank(gap),
    ensures
        word_before(before + word + gap + rest, (before + word + gap).len() as int) == before.len(),
{
    let line = before + word + gap + rest;
    let b = before.len() as int;
    let w = b + word.len();
    let g = w + gap.len();
    assert forall|i: int| w <= i < g implies is_white(#[trigger] line[i]) by {
        assert(line[i] == gap[i - w]);
    }
    assert forall|i: int| b <= i < w implies !is_white(#[trigger] line[i]) by {
        assert(line[i] == word[i - b]);
    }
    lemma_gap_start(line, w, g);
    if b > 0 {
        assert(line[b - 1] == before.last());
    }
    lemma_run_start(line, b, w);
}

proof fn lemma_gap_start(line: Seq<char>, from: int, to: int)
    requires
        0 < from <= to <= line.len(),
        !is_white(line[from - 1]),
        forall|i: int| from <= i < to ==> is_white(#[trigger] line[i]),
    ensures
        gap_start(line, to) == from,
    decreases to,
{
    if from < to {
        lemma_gap_start(line, from, to - 1);
    }
}

proof fn lemma_run_start(line: Seq<char>, from: int, to: int)
    requires
        0 <= from <= to <= line.len(),
        from > 0 ==> is_white(line[from - 1]),
        forall|i: int| from <= i < to ==> !is_white(#[trigger] line[i]),
    ensures
        run_start(line, to) == from,
    decreases to,
{
    if from < to {
        lemma_run_start(line, from, to - 1);
    }
}

/// A step on by a word goes to where the next word begins.
pub proof fn law_words_end_at_white_space(
    before: Seq<char>,
    word: Seq<char>,
    gap: Seq<char>,
    rest: Seq<char>,
)
    requires
        is_word(word),
        is_blank(gap),
        gap.len() > 0,
        rest.len() == 0 || !is_white(rest[0]),
    ensures
        word_after(before + word + gap + rest, before.len() as int) == (before + word + gap).len(),
{
    let line = before + word + gap + rest;
    let b = before.len() as int;
    let w = b + word.len();
    let g = w + gap.len();
    assert forall|i: int| w <= i < g implies is_white(#[trigger] line[i]) by {
        assert(line[i] == gap[i - w]);
    }
    assert forall|i: int| b <= i < w implies !is_white(#[trigger] line[i]) by {
        assert(line[i] == word[i - b]);
    }
    lemma_run_end(line, b, w);
    if g < line.len() {
        assert(line[g] == rest[0]);
    }
    lemma_gap_end(line, w, g);
}

proof fn lemma_run_end(line: Seq<char>, from: int, to: int)
    requires
        0 <= from <= to < line.len(),
        is_white(line[to]),
        forall|i: int| from <= i < to ==> !is_white(#[trigger] line[i]),
    ensures
        run_end(line, from) == to,
    decreases to - from,
{
    if from < to {
        lemma_run_end(line, from + 1, to);
    }
}

proof fn lemma_gap_end(line: Seq<char>, from: int, to: int)
    requires
        0 <= from <= to <= line.len(),
        to < line.len() ==> !is_white(line[to]),
        forall|i: int| from <= i < to ==> is_white(#[trigger] line[i]),
    ensures
        gap_end(line, from) == to,
    decreases to - from,
{
    if from < to {
        lemma_gap_end(line, from + 1, to);
    }
}

/// The word before the cursor goes, and nothing else.
pub proof fn law_a_word_is_erased(
    a: AreaView,
    before: Seq<char>,
    word: Seq<char>,
    gap: Seq<char>,
    rest: Seq<char>,
)
    requires
        is_area(a),
        before.len() == 0 || is_white(before.last()),
        is_word(word),
        is_blank(gap),
        a.lines[a.row] == before + word + gap + rest,
        a.col == (before + word + gap).len(),
    ensures
        ({
            let e = word_erased(a);
            &&& e.lines == a.lines.update(a.row, before + rest)
            &&& e.row == a.row
            &&& e.col == before.len()
        }),
{
    law_words_begin_behind_white_space(before, word, gap, rest);
    let line = before + word + gap + rest;
    assert(line.take(before.len() as int) =~= before);
    assert(line.skip(a.col) =~= rest);
}

// ---------------------------------------------------------------------------
// The history
// ---------------------------------------------------------------------------

/// A text that is shown is there, with the cursor at its end.
pub proof fn law_shown_text_is_there(a: AreaView, s: Seq<char>)
    ensures
        head(showing(a, s)) == s,
        tail(showing(a, s)).len() == 0,
    decreases s.len(),
{
    let v = showing(a, s);
    let lines = text::pieces(s, '\n');
    text::lemma_pieces_nonempty(s, '\n');
    let n = lines.len() as int;
    assert(lines.last().take(lines.last().len() as int) =~= lines.last());
    assert(lines.last().skip(lines.last().len() as int) =~= Seq::<char>::empty());
    assert(lines.skip(n) =~= Seq::<Seq<char>>::empty());
    assert(tail(v) =~= Seq::<char>::empty());
    if s.len() == 0 {
        assert(lines.take(0) =~= Seq::<Seq<char>>::empty());
        assert(ended(lines.take(0)) =~= Seq::<char>::empty());
        assert(head(v) =~= s);
    } else {
        let t = s.drop_last();
        let before = text::pieces(t, '\n');
        text::lemma_pieces_nonempty(t, '\n');
        law_shown_text_is_there(a, t);
        let m = before.len() as int;
        assert(before.last().take(before.last().len() as int) =~= before.last());
        assert(before.take(m - 1) =~= before.drop_last());
        assert(ended(before.drop_last()) + before.last() == t);
        if s.last() == '\n' {
            assert(lines =~= before.push(Seq::empty()));
            assert(lines.take(n - 1) =~= before);
            assert(ended(before) =~= t.push('\n'));
            assert(head(v) =~= ended(before));
        } else {
            assert(lines.take(n - 1) =~= before.drop_last());
            assert(lines.last() =~= before.last().push(s.last()));
            assert(head(v) =~= (ended(before.drop_last()) + before.last()).push(s.last()));
        }
        assert(head(v) =~= s);
    }
}

/// A prompt is remembered as the latest, without the white space round it, unless
/// it is blank or repeats the one before.
pub proof fn law_prompts_are_remembered(history: Seq<Seq<char>>, s: Seq<char>)
    requires
        history.len() <= 200,
    ensures
        is_blank(s) ==> remembered(history, s) == history,
        !is_blank(s) ==> remembered(history, s).len() > 0 && remembered(history, s).last()
            == text::trimmed(s),
        history.len() > 0 && text::trimmed(s) == history.last() ==> remembered(history, s)
            == history,
        !is_blank(s) && (history.len() == 0 || text::trimmed(s) != history.last()) ==> {
            &&& history.len() < 200 ==> remembered(history, s) == history.push(text::trimmed(s))
            &&& history.len() == 200 ==> remembered(history, s) == history.skip(1).push(
                text::trimmed(s),
            )
        },
{
    law_blank_text_trims_to_nothing(s);
    let t = text::trimmed(s);
    if history.len() == 200 {
        assert(history.push(t).skip(1) =~= history.skip(1).push(t));
    }
}

/// A step back shows the prompt before, the latest first, and keeps what was being
/// typed.
pub proof fn law_prompts_are_recalled(a: AreaView)
    requires
        is_area(a),
        a.history.len() > 0,
    ensures
        ({
            let r = recalled(a);
            &&& a.index is None ==> {
                &&& head(r) == a.history.last()
                &&& r.index == Some((a.history.len() - 1) as usize)
                &&& r.draft == Some(typed_text(a))
            }
            &&& a.index matches Some(i) ==> {
                &&& i > 0 ==> head(r) == a.history[i - 1] && r.index == Some((i - 1) as usize)
                &&& i == 0 ==> head(r) == a.history[0] && r.index == Some(0usize)
                &&& r.draft == a.draft
            }
            &&& tail(r).len() == 0
            &&& r.history == a.history
        }),
{
    law_shown_text_is_there(a, a.history.last());
    if let Some(i) = a.index {
        let k = if i == 0 {
            0
        } else {
            i - 1
        };
        law_shown_text_is_there(a, a.history[k as int]);
    }
}

/// A step on shows the prompt behind, and behind the latest what was being typed.
pub proof fn law_prompts_are_returned_from(a: AreaView, i: usize)
    requires
        is_area(a),
        a.index == Some(i),
    ensures
        ({
            let r = returned(a);
            &&& i + 1 < a.history.len() ==> head(r) == a.history[i + 1] && r.index == Some(
                (i + 1) as usize,
            )
            &&& i + 1 == a.history.len() ==> {
                &&& r.index is None
                &&& a.draft matches Some(d) ==> head(r) == d
                &&& a.draft is None ==> head(r).len() == 0
            }
            &&& tail(r).len() == 0
            &&& r.history == a.history
        }),
{
    if i + 1 < a.history.len() {
        law_shown_text_is_there(a, a.history[i + 1]);
    } else {
        law_shown_text_is_there(
            a,
            match a.draft {
                Some(d) => d,
                None => Seq::empty(),
            },
        );
    }
}

// ---------------------------------------------------------------------------
// Keys
// ---------------------------------------------------------------------------

/// A letter is typed.
pub proof fn law_letters_are_typed(a: AppView, c: char, shift: bool, alt: bool, now: u64)
    requires
        a.overlay is Closed,
        is_area(a.area),
    ensures
        ({
            let key = Key { code: KeyCode::Char(c), ctrl: false, shift, alt };
            let (b, effect) = after_key(a, key, now);
            &&& head(b.area) == head(a.area).push(c)
            &&& tail(b.area) == tail(a.area)
            &&& effect is Nothing
            &&& b.transcript == a.transcript
            &&& b.mode == a.mode
            &&& c != '/' ==> b.overlay is Closed
        }),
{
    law_typing_inserts(a.area, c);
}

/// Enter sends what is typed, and empties the box. It sends nothing while a turn
/// is running, nor where nothing is typed.
pub proof fn law_enter_sends(a: AppView, ctrl: bool, now: u64)
    requires
        a.overlay is Closed,
        is_area(a.area),
    ensures
        ({
            let key = Key { code: KeyCode::Enter, ctrl, shift: false, alt: false };
            let (b, effect) = after_key(a, key, now);
            &&& !a.busy && !nothing_typed(a.area) ==> {
                &&& effect == EffectView::Submit(typed_text(a.area))
                &&& b.area.lines == seq![Seq::<char>::empty()]
                &&& b.area.row == 0 && b.area.col == 0
                &&& b.area.history == remembered(a.area.history, typed_text(a.area))
                &&& b.area.index is None && b.area.draft is None
            }
            &&& a.busy || nothing_typed(a.area) ==> effect is Nothing && b == a
        }),
{
}

/// With Shift or Alt, Enter breaks the line.
pub proof fn law_shifted_enter_breaks_the_line(a: AppView, ctrl: bool, shift: bool, alt: bool, now: u64)
    requires
        a.overlay is Closed,
        is_area(a.area),
        shift || alt,
    ensures
        ({
            let key = Key { code: KeyCode::Enter, ctrl, shift, alt };
            let (b, effect) = after_key(a, key, now);
            &&& head(b.area) == head(a.area).push('\n')
            &&& tail(b.area) == tail(a.area)
            &&& effect is Nothing
        }),
{
    law_breaking_inserts_a_break(a.area);
}

/// Backspace and Delete take one character away, the arrows go over one.
pub proof fn law_editing_keys_edit(a: AppView, now: u64)
    requires
        a.overlay is Closed,
        is_area(a.area),
    ensures
        ({
            let plain = |code: KeyCode| Key { code, ctrl: false, shift: false, alt: false };
            let area = |code: KeyCode| after_key(a, plain(code), now).0.area;
            &&& area(KeyCode::Backspace) == erased(a.area)
            &&& area(KeyCode::Delete) == erased_forward(a.area)
            &&& area(KeyCode::Left) == stepped_left(a.area)
            &&& area(KeyCode::Right) == stepped_right(a.area)
            &&& area(KeyCode::Home) == moved(a.area, a.area.row, 0)
            &&& area(KeyCode::End) == moved(a.area, a.area.row, line_at(a.area).len() as int)
            &&& a.area.row > 0 ==> area(KeyCode::Up) == stepped_up(a.area)
            &&& a.area.row == 0 ==> area(KeyCode::Up) == recalled(a.area)
            &&& a.area.row + 1 < a.area.lines.len() ==> area(KeyCode::Down) == stepped_down(a.area)
            &&& a.area.row + 1 == a.area.lines.len() ==> area(KeyCode::Down) == returned(a.area)
        }),
{
}

/// Ctrl+C interrupts a turn. Without one it empties the box, and where that is
/// empty already it exits when it is pressed twice within two seconds.
pub proof fn law_ctrl_c_interrupts_or_exits(a: AppView, shift: bool, alt: bool, now: u64)
    requires
        a.overlay is Closed,
    ensures
        ({
            let key = Key { code: KeyCode::Char('c'), ctrl: true, shift, alt };
            let (b, effect) = after_key(a, key, now);
            &&& a.busy <==> effect is Cancel
            &&& !a.busy ==> effect is Nothing
            &&& !a.busy && !nothing_typed(a.area) ==> b.area.lines == seq![Seq::<char>::empty()]
                && b.should_quit == a.should_quit
            &&& !a.busy && nothing_typed(a.area) && a.quit_armed_at is None ==> b.quit_armed_at
                == Some(now) && b.should_quit == a.should_quit
            &&& !a.busy && nothing_typed(a.area) ==> (a.quit_armed_at matches Some(at) ==> {
                &&& now < at + 2_000_000_000 ==> b.should_quit
                &&& now >= at + 2_000_000_000 ==> b.should_quit == a.should_quit
                    && b.quit_armed_at == Some(now)
            })
        }),
{
}

/// Esc interrupts a turn, and without one it empties the box.
pub proof fn law_escape_interrupts_or_empties(a: AppView, ctrl: bool, shift: bool, alt: bool, now: u64)
    requires
        a.overlay is Closed,
    ensures
        ({
            let key = Key { code: KeyCode::Esc, ctrl, shift, alt };
            let (b, effect) = after_key(a, key, now);
            &&& a.busy <==> effect is Cancel
            &&& a.busy ==> b.area == a.area
            &&& !a.busy ==> b.area.lines == seq![Seq::<char>::empty()] && effect is Nothing
        }),
{
}

/// Shift+Tab goes from asking, over edits, to planning and back, and puts the mode
/// in force.
pub proof fn law_modes_are_cycled(a: AppView, ctrl: bool, shift: bool, alt: bool, now: u64)
    requires
        a.overlay is Closed,
    ensures
        ({
            let key = Key { code: KeyCode::BackTab, ctrl, shift, alt };
            let (b, effect) = after_key(a, key, now);
            &&& effect == EffectView::StoreMode(b.mode)
            &&& a.mode == PermissionMode::Default ==> b.mode == PermissionMode::AcceptEdits
            &&& a.mode == PermissionMode::AcceptEdits ==> b.mode == PermissionMode::Plan
            &&& a.mode == PermissionMode::Plan ==> b.mode == PermissionMode::Default
            &&& a.mode == PermissionMode::BypassPermissions ==> b.mode == PermissionMode::Default
        }),
{
}

/// While a question is open, only an answer closes it, and each key that answers
/// gives the answer that it stands for.
pub proof fn law_questions_are_answered(a: AppView, key: Key, now: u64)
    requires
        a.overlay is Permission,
    ensures
        ({
            let (b, effect) = after_key(a, key, now);
            &&& key.code == KeyCode::Char('y') || key.code == KeyCode::Enter ==> effect
                == EffectView::Answer(PermissionResponse::Once)
            &&& key.code == KeyCode::Char('a') ==> effect == EffectView::Answer(
                PermissionResponse::Always,
            )
            &&& key.code == KeyCode::Char('n') || key.code == KeyCode::Esc ==> effect
                == EffectView::Answer(PermissionResponse::Reject)
            &&& effect is Answer <==> b.overlay is Closed
            &&& !(effect is Answer) ==> b == a && effect is Nothing
            &&& b.area == a.area
        }),
{
}

/// A letter that stands for no answer answers nothing.
pub proof fn law_other_letters_answer_nothing(c: char)
    requires
        c != 'y' && c != 'Y' && c != '1' && c != 'a' && c != 'A' && c != '2' && c != 'n' && c != 'N'
            && c != '3',
    ensures
        answer_of(KeyCode::Char(c)) is None,
{
}

/// The selection goes up and down by one and stays within the list.
pub proof fn law_selections_stay_in_the_list(selected: usize, count: nat)
    requires
        selected < count <= usize::MAX,
    ensures
        selected > 0 ==> above(selected) == selected - 1,
        selected == 0 ==> above(selected) == 0,
        selected + 1 < count ==> below(selected, count) == selected + 1,
        selected + 1 == count ==> below(selected, count) == selected,
{
}

/// While the palette is open, the arrows select, Esc closes it, and Enter types the
/// command that is selected.
pub proof fn law_the_palette_types_commands(a: AppView, key: Key, now: u64)
    requires
        a.overlay is Palette,
        a.overlay->Palette_selected < a.overlay->Palette_entries.len(),
    ensures
        ({
            let (b, effect) = after_key(a, key, now);
            let entries = a.overlay->Palette_entries;
            let k = a.overlay->Palette_selected;
            &&& effect is Nothing
            &&& key.code == KeyCode::Esc ==> b.overlay is Closed && b.area == a.area
            &&& key.code == KeyCode::Up ==> b.overlay == (OverlayView::Palette {
                entries,
                selected: above(k),
            })
            &&& key.code == KeyCode::Down ==> b.overlay == (OverlayView::Palette {
                entries,
                selected: below(k, entries.len()),
            })
            &&& key.code == KeyCode::Enter || key.code == KeyCode::Tab ==> {
                &&& b.overlay is Closed
                &&& head(b.area) == "/"@ + entries[k as int].name + " "@
                &&& tail(b.area).len() == 0
            }
        }),
{
    let entries = a.overlay->Palette_entries;
    let k = a.overlay->Palette_selected;
    law_shown_text_is_there(a.area, "/"@ + entries[k as int].name + " "@);
}

/// Tab completes a slash command: the only one that fits is typed, and where there
/// are several they are offered. Other text stays as it is.
pub proof fn law_tab_completes(a: AppView, ctrl: bool, shift: bool, alt: bool, now: u64)
    requires
        a.overlay is Closed,
    ensures
        ({
            let key = Key { code: KeyCode::Tab, ctrl, shift, alt };
            let (b, effect) = after_key(a, key, now);
            let t = typed_text(a.area);
            let found = completions(t, a.custom);
            let is_command = t.len() > 0 && t[0] == '/' && text::first_space(t, 0) is None;
            &&& effect is Nothing
            &&& !is_command || found.len() == 0 ==> b.area == a.area && b.overlay is Closed
            &&& is_command && found.len() == 1 ==> {
                &&& b.overlay is Closed
                &&& head(b.area) == "/"@ + found[0].name + " "@
                &&& tail(b.area).len() == 0
            }
            &&& is_command && found.len() > 1 ==> {
                &&& b.overlay == (OverlayView::Palette { entries: found, selected: 0 })
                &&& b.area == a.area
            }
        }),
{
    reveal_strlit("/");
    let t = typed_text(a.area);
    if t.len() > 0 {
        assert(t.subrange(0, 1)[0] == t[0]);
        if t[0] == '/' {
            assert(t.subrange(0, 1) =~= "/"@);
        }
    }
    let found = completions(t, a.custom);
    if found.len() == 1 {
        law_shown_text_is_there(a.area, "/"@ + found[0].name + " "@);
    }
}

/// A slash on an empty line offers every command.
pub proof fn law_a_slash_offers_commands(a: AppView, shift: bool, alt: bool, now: u64)
    requires
        a.overlay is Closed,
        is_area(a.area),
        head(a.area).len() == 0,
        tail(a.area).len() == 0,
    ensures
        ({
            let key = Key { code: KeyCode::Char('/'), ctrl: false, shift, alt };
            after_key(a, key, now).0.overlay == (OverlayView::Palette {
                entries: all_commands(a.custom),
                selected: 0,
            })
        }),
{
    reveal_strlit("/");
    law_typing_inserts(a.area, '/');
    let t = typed(a.area, '/');
    crate::tui::input::law_edits_keep_the_area(a.area, '/', "/"@);
    law_the_cursor_parts_the_text(t);
    assert(typed_text(t) =~= "/"@);
}

/// While the palette is open, a letter is typed, and the commands that fit are
/// offered, until one of them is typed out or none fits.
pub proof fn law_the_palette_narrows(a: AppView, c: char, ctrl: bool, shift: bool, alt: bool, now: u64)
    requires
        a.overlay is Palette,
        is_area(a.area),
    ensures
        ({
            let key = Key { code: KeyCode::Char(c), ctrl, shift, alt };
            let (b, effect) = after_key(a, key, now);
            let t = typed_text(b.area);
            let found = completions(t, a.custom);
            let is_typed_out = exists|i: int|
                0 <= i < found.len() && (#[trigger] found[i]).name == text::without_start(t, '/');
            &&& effect is Nothing
            &&& head(b.area) == head(a.area).push(c)
            &&& tail(b.area) == tail(a.area)
            &&& found.len() == 0 || is_typed_out ==> b.overlay is Closed
            &&& found.len() > 0 && !is_typed_out ==> b.overlay == (OverlayView::Palette {
                entries: found,
                selected: 0,
            })
        }),
{
    law_typing_inserts(a.area, c);
}

} // verus!
