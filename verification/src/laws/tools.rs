//! What pages, task lists and commands come to.
use vstd::prelude::*;
use crate::json::{str_field, uint_field, Json};
use crate::laws::text::{is_blank, is_tight, law_blank_text_trims_to_nothing};
use crate::text;
use crate::tools::misc::{
    ascii_lower, collapsed_lines, count_status, decoded, found_ci, lemma_found_ci, lemma_tag_end,
    occurs_ci, page_text, progress_text, status_named, tag_end, todo_lines, todo_of, todos_of,
    without_tags, TodoView,
};
use crate::tools::shell::{
    bash_timeout, both_streams, is_bash_outcome, poll_text, with_line, Ended, ShellView,
};
use crate::tools::{status_glyph, TodoStatus, ToolOutcome};
use crate::util::Duration;

verus! {

// ---------------------------------------------------------------------------
// Pages
// ---------------------------------------------------------------------------

/// Text outside of tags stays as it is.
pub proof fn law_text_outside_tags_stays(a: Seq<char>, rest: Seq<char>)
    requires
        !a.contains('<'),
    ensures
        without_tags(a + rest, 0) == a + without_tags(a + rest, a.len() as int),
        rest.len() == 0 ==> without_tags(a + rest, 0) == a,
{
    lemma_text_stays(a, rest, 0);
    assert(a.skip(0) =~= a);
    if rest.len() == 0 {
        assert(without_tags(a + rest, a.len() as int) =~= Seq::<char>::empty());
        assert(a + Seq::<char>::empty() =~= a);
    }
}

proof fn lemma_text_stays(a: Seq<char>, rest: Seq<char>, i: int)
    requires
        0 <= i <= a.len(),
        !a.contains('<'),
    ensures
        without_tags(a + rest, i) == a.skip(i) + without_tags(a + rest, a.len() as int),
    decreases a.len() - i,
{
    let s = a + rest;
    if i < a.len() {
        assert(a.contains(a[i]));
        lemma_text_stays(a, rest, i + 1);
        assert(seq![s[i]] + a.skip(i + 1) =~= a.skip(i));
        assert(without_tags(s, i) =~= a.skip(i) + without_tags(s, a.len() as int));
    } else {
        assert(a.skip(i) =~= Seq::<char>::empty());
        assert(without_tags(s, i) =~= a.skip(i) + without_tags(s, a.len() as int));
    }
}

/// Letters count the same in either case.
pub open spec fn is_letter_pair(a: char, b: char) -> bool {
    ||| a == b
    ||| 'a' <= a <= 'z' && a as int - b as int == 32
    ||| 'a' <= b <= 'z' && b as int - a as int == 32
}

/// Whether two texts differ in case alone.
pub open spec fn is_same_word(a: Seq<char>, b: Seq<char>) -> bool {
    &&& a.len() == b.len()
    &&& forall|i: int| 0 <= i < a.len() ==> is_letter_pair(#[trigger] a[i], b[i])
}

/// A tag ends the line that it stands on, and nothing of it is shown.
pub proof fn law_tags_break_lines(a: Seq<char>, tag: Seq<char>, rest: Seq<char>)
    requires
        !a.contains('<'),
        !tag.contains('>'),
        tag.len() > 0,
        tag[0] != 's',
        tag[0] != 'S',
    ensures
        without_tags(a + seq!['<'] + tag + seq!['>'] + rest, 0) == a + seq!['\n'] + without_tags(
            rest,
            0,
        ),
{
    let x = a + seq!['<'] + tag + seq!['>'];
    let s = x + rest;
    let n = a.len() as int;
    let after = seq!['<'] + tag + seq!['>'] + rest;
    law_text_outside_tags_stays(a, after);
    assert(a + after =~= s);
    reveal_strlit("<script");
    reveal_strlit("<style");
    assert(s[n] == '<' && s[n + 1] == tag[0]);
    if occurs_ci(s, "<script"@, n) {
        assert(ascii_lower(s[n + 1]) == ascii_lower("<script"@[1]));
    }
    if occurs_ci(s, "<style"@, n) {
        assert(ascii_lower(s[n + 1]) == ascii_lower("<style"@[1]));
    }
    assert forall|k: int| n <= k < x.len() - 1 implies s[k] != '>' by {
        if k > n {
            assert(tag.contains(tag[k - n - 1]));
        }
    }
    lemma_tag_ends(s, n, x.len() - 1);
    lemma_shifted(x, rest, 0);
    assert(a + (seq!['\n'] + without_tags(rest, 0)) =~= a + seq!['\n'] + without_tags(rest, 0));
}

/// Nothing of a script is shown, up to where it ends.
pub proof fn law_scripts_are_not_shown(
    a: Seq<char>,
    start: Seq<char>,
    body: Seq<char>,
    end: Seq<char>,
    rest: Seq<char>,
)
    requires
        !a.contains('<'),
        is_same_word(start, "<script"@),
        is_same_word(end, "</script>"@),
        forall|i: int|
            0 <= i < (start + body).len() ==> !is_same_word(
                #[trigger] (start + body + end).subrange(i, i + 9),
                "</script>"@,
            ),
    ensures
        without_tags(a + start + body + end + rest, 0) == a + without_tags(rest, 0),
{
    reveal_strlit("<script");
    reveal_strlit("</script>");
    lemma_dropped(a, start, body, end, rest, "<script"@, "</script>"@);
    let x = a + start + body + end;
    let after = start + body + end + rest;
    law_text_outside_tags_stays(a, after);
    assert(a + after =~= x + rest);
    assert(is_letter_pair(start[0], '<'));
    assert((x + rest)[a.len() as int] == start[0]);
    lemma_shifted(x, rest, 0);
}

/// Nothing of a style sheet is shown, up to where it ends.
pub proof fn law_styles_are_not_shown(
    a: Seq<char>,
    start: Seq<char>,
    body: Seq<char>,
    end: Seq<char>,
    rest: Seq<char>,
)
    requires
        !a.contains('<'),
        is_same_word(start, "<style"@),
        is_same_word(end, "</style>"@),
        forall|i: int|
            0 <= i < (start + body).len() ==> !is_same_word(
                #[trigger] (start + body + end).subrange(i, i + 8),
                "</style>"@,
            ),
    ensures
        without_tags(a + start + body + end + rest, 0) == a + without_tags(rest, 0),
{
    reveal_strlit("<script");
    reveal_strlit("<style");
    reveal_strlit("</style>");
    lemma_dropped(a, start, body, end, rest, "<style"@, "</style>"@);
    let x = a + start + body + end;
    let after = start + body + end + rest;
    law_text_outside_tags_stays(a, after);
    assert(a + after =~= x + rest);
    assert(is_letter_pair(start[0], '<') && is_letter_pair(start[2], 't'));
    assert((x + rest)[a.len() as int] == start[0]);
    assert((x + rest)[a.len() as int + 2] == start[2]);
    if occurs_ci(x + rest, "<script"@, a.len() as int) {
        assert(ascii_lower((x + rest)[a.len() as int + 2]) == ascii_lower("<script"@[2]));
    }
    lemma_shifted(x, rest, 0);
}

proof fn lemma_same_letter(a: char, b: char)
    ensures
        is_letter_pair(a, b) <==> ascii_lower(a) == ascii_lower(b),
{
}

proof fn lemma_dropped(
    a: Seq<char>,
    start: Seq<char>,
    body: Seq<char>,
    end: Seq<char>,
    rest: Seq<char>,
    tag: Seq<char>,
    close: Seq<char>,
)
    requires
        tag.len() > 0,
        close.len() > 0,
        is_same_word(start, tag),
        is_same_word(end, close),
        forall|i: int|
            0 <= i < (start + body).len() ==> !is_same_word(
                #[trigger] (start + body + end).subrange(i, i + close.len()),
                close,
            ),
    ensures
        occurs_ci(a + start + body + end + rest, tag, a.len() as int),
        found_ci(a + start + body + end + rest, close, a.len() as int) == Some(
            (a + start + body).len() as int,
        ),
{
    let s = a + start + body + end + rest;
    let m = (a + start + body).len() as int;
    let n = a.len() as int;
    assert forall|k: int| 0 <= k < tag.len() implies ascii_lower(#[trigger] s[n + k])
        == ascii_lower(tag[k]) by {
        assert(s[n + k] == start[k]);
        lemma_same_letter(start[k], tag[k]);
    }
    assert forall|k: int| 0 <= k < close.len() implies ascii_lower(#[trigger] s[m + k])
        == ascii_lower(close[k]) by {
        assert(s[m + k] == end[k]);
        lemma_same_letter(end[k], close[k]);
    }
    assert forall|i: int| n <= i < m implies !occurs_ci(s, close, i) by {
        let w = (start + body + end).subrange(i - n, i - n + close.len());
        assert(!is_same_word(w, close));
        let k = choose|k: int| 0 <= k < w.len() && !is_letter_pair(#[trigger] w[k], close[k]);
        assert(w[k] == s[i + k]);
        lemma_same_letter(w[k], close[k]);
    }
    lemma_found_first(s, close, n, m);
}

proof fn lemma_found_first(s: Seq<char>, pat: Seq<char>, from: int, at: int)
    requires
        0 <= from <= at,
        occurs_ci(s, pat, at),
        forall|i: int| from <= i < at ==> !occurs_ci(s, pat, i),
    ensures
        found_ci(s, pat, from) == Some(at),
    decreases at - from,
{
    if from < at {
        lemma_found_first(s, pat, from + 1, at);
    }
}

proof fn lemma_tag_ends(s: Seq<char>, from: int, at: int)
    requires
        0 <= from <= at < s.len(),
        s[at] == '>',
        forall|k: int| from <= k < at ==> s[k] != '>',
    ensures
        tag_end(s, from) == Some(at),
    decreases at - from,
{
    if from < at {
        lemma_tag_ends(s, from + 1, at);
    }
}

proof fn lemma_occurs_shifted(x: Seq<char>, rest: Seq<char>, pat: Seq<char>, i: int)
    requires
        0 <= i,
    ensures
        occurs_ci(x + rest, pat, x.len() + i) == occurs_ci(rest, pat, i),
{
    let s = x + rest;
    if i + pat.len() <= rest.len() {
        if occurs_ci(rest, pat, i) {
            assert forall|k: int| 0 <= k < pat.len() implies ascii_lower(
                #[trigger] s[x.len() + i + k],
            ) == ascii_lower(pat[k]) by {
                assert(ascii_lower(rest[i + k]) == ascii_lower(pat[k]));
            }
        }
        if occurs_ci(s, pat, x.len() + i) {
            assert forall|k: int| 0 <= k < pat.len() implies ascii_lower(#[trigger] rest[i + k])
                == ascii_lower(pat[k]) by {
                assert(ascii_lower(s[x.len() + i + k]) == ascii_lower(pat[k]));
            }
        }
    }
}

proof fn lemma_found_shifted(x: Seq<char>, rest: Seq<char>, pat: Seq<char>, i: int)
    requires
        0 <= i,
    ensures
        found_ci(x + rest, pat, x.len() + i) == (match found_ci(rest, pat, i) {
            Some(e) => Some(x.len() + e),
            None => None,
        }),
    decreases rest.len() + 1 - i,
{
    lemma_occurs_shifted(x, rest, pat, i);
    if i + pat.len() <= rest.len() && !occurs_ci(rest, pat, i) {
        lemma_found_shifted(x, rest, pat, i + 1);
    }
}

proof fn lemma_tag_end_shifted(x: Seq<char>, rest: Seq<char>, i: int)
    requires
        0 <= i,
    ensures
        tag_end(x + rest, x.len() + i) == (match tag_end(rest, i) {
            Some(e) => Some(x.len() + e),
            None => None,
        }),
    decreases rest.len() - i,
{
    if i < rest.len() {
        assert((x + rest)[x.len() + i] == rest[i]);
        if rest[i] != '>' {
            lemma_tag_end_shifted(x, rest, i + 1);
        }
    }
}

proof fn lemma_shifted(x: Seq<char>, rest: Seq<char>, i: int)
    requires
        0 <= i,
    ensures
        without_tags(x + rest, x.len() + i) == without_tags(rest, i),
    decreases rest.len() - i,
{
    let s = x + rest;
    if i < rest.len() {
        assert(s[x.len() + i] == rest[i]);
        reveal_strlit("</script>");
        reveal_strlit("</style>");
        lemma_occurs_shifted(x, rest, "<script"@, i);
        lemma_occurs_shifted(x, rest, "<style"@, i);
        lemma_found_shifted(x, rest, "</script>"@, i);
        lemma_found_shifted(x, rest, "</style>"@, i);
        lemma_tag_end_shifted(x, rest, i);
        lemma_found_ci(rest, "</script>"@, i);
        lemma_found_ci(rest, "</style>"@, i);
        lemma_tag_end(rest, i);
        if rest[i] != '<' {
            lemma_shifted(x, rest, i + 1);
        } else if occurs_ci(rest, "<script"@, i) {
            if let Some(e) = found_ci(rest, "</script>"@, i) {
                lemma_shifted(x, rest, e + 9);
            }
        } else if occurs_ci(rest, "<style"@, i) {
            if let Some(e) = found_ci(rest, "</style>"@, i) {
                lemma_shifted(x, rest, e + 8);
            }
        } else if let Some(e) = tag_end(rest, i) {
            lemma_shifted(x, rest, e + 1);
        }
    }
}

/// An entity stands for its character.
pub proof fn law_entities_stand_for_characters(a: Seq<char>, b: Seq<char>)
    requires
        !a.contains('&'),
        !b.contains('&'),
    ensures
        decoded(a + b) == a + b,
        decoded(a + "&lt;"@ + b) == a + seq!['<'] + b,
        decoded(a + "&gt;"@ + b) == a + seq!['>'] + b,
        decoded(a + "&nbsp;"@ + b) == a + seq![' '] + b,
        decoded(a + "&quot;"@ + b) == a + seq!['"'] + b,
        decoded(a + "&#39;"@ + b) == a + seq!['\''] + b,
{
    reveal_strlit("&lt;");
    reveal_strlit("&gt;");
    reveal_strlit("&nbsp;");
    reveal_strlit("&quot;");
    reveal_strlit("&#39;");
    reveal_strlit("&amp;");
    reveal_strlit("<");
    reveal_strlit(">");
    reveal_strlit(" ");
    reveal_strlit("\"");
    reveal_strlit("'");
    assert("<"@ =~= seq!['<'] && ">"@ =~= seq!['>'] && " "@ =~= seq![' ']);
    assert("\""@ =~= seq!['"'] && "'"@ =~= seq!['\'']);
    lemma_no_amp_two(a, b);
    lemma_plain_decoded(a + b);
    lemma_entity(a, "&lt;"@, b, '<');
    lemma_entity(a, "&gt;"@, b, '>');
    lemma_entity(a, "&nbsp;"@, b, ' ');
    lemma_entity(a, "&quot;"@, b, '"');
    lemma_entity(a, "&#39;"@, b, '\'');
}

proof fn lemma_no_amp_two(a: Seq<char>, b: Seq<char>)
    requires
        !a.contains('&'),
        !b.contains('&'),
    ensures
        !(a + b).contains('&'),
{
    let s = a + b;
    assert forall|i: int| 0 <= i < s.len() implies s[i] != '&' by {
        if i < a.len() {
            assert(a.contains(a[i]));
        } else {
            assert(b.contains(b[i - a.len()]));
        }
    }
}

proof fn lemma_untouched(s: Seq<char>, pat: Seq<char>, with: Seq<char>)
    requires
        pat.len() > 0,
        pat[0] == '&',
        !s.contains('&'),
    ensures
        text::replaced(s, pat, with) == s,
{
    if text::contains(s, pat) {
        let i = choose|i: int| text::occurs_at(s, pat, i);
        assert(s.subrange(i, i + pat.len())[0] == '&');
        assert(s.contains(s[i]));
    }
    crate::laws::text::law_replacing_nothing(s, pat, with);
}

proof fn lemma_plain_decoded(s: Seq<char>)
    requires
        !s.contains('&'),
    ensures
        decoded(s) == s,
{
    reveal_strlit("&lt;");
    reveal_strlit("&gt;");
    reveal_strlit("&nbsp;");
    reveal_strlit("&quot;");
    reveal_strlit("&#39;");
    reveal_strlit("&amp;");
    lemma_untouched(s, "&nbsp;"@, " "@);
    lemma_untouched(s, "&amp;"@, "&"@);
    lemma_untouched(s, "&lt;"@, "<"@);
    lemma_untouched(s, "&gt;"@, ">"@);
    lemma_untouched(s, "&quot;"@, "\""@);
    lemma_untouched(s, "&#39;"@, "'"@);
}

proof fn lemma_other_entity(a: Seq<char>, e: Seq<char>, b: Seq<char>, pat: Seq<char>, with: Seq<char>)
    requires
        e.len() > 1,
        e[0] == '&',
        forall|i: int| 1 <= i < e.len() ==> e[i] != '&',
        pat.len() > 1,
        pat[0] == '&',
        pat[1] != e[1],
        !a.contains('&'),
        !b.contains('&'),
    ensures
        text::replaced(a + e + b, pat, with) == a + e + b,
{
    let s = a + e + b;
    if text::contains(s, pat) {
        let i = choose|i: int| text::occurs_at(s, pat, i);
        let here = s.subrange(i, i + pat.len());
        assert(here[0] == '&' && here[1] == pat[1]);
        if i < a.len() {
            assert(a.contains(a[i]));
        } else if i == a.len() {
            assert(s[i + 1] == e[1]);
        } else if i < a.len() + e.len() {
            assert(s[i] == e[i - a.len()]);
        } else {
            assert(b.contains(b[i - a.len() - e.len()]));
        }
    }
    crate::laws::text::law_replacing_nothing(s, pat, with);
}

proof fn lemma_this_entity(a: Seq<char>, e: Seq<char>, b: Seq<char>, with: Seq<char>)
    requires
        e.len() > 0,
        e[0] == '&',
        !a.contains('&'),
        !b.contains('&'),
    ensures
        text::replaced(a + e + b, e, with) == a + with + b,
    decreases a.len(),
{
    let s = a + e + b;
    if a.len() == 0 {
        assert(s.subrange(0, e.len() as int) =~= e);
        assert(s.skip(e.len() as int) =~= b);
        lemma_untouched(b, e, with);
        assert(text::replaced(s, e, with) =~= a + with + b);
    } else {
        if text::starts_with(s, e) {
            assert(s.subrange(0, e.len() as int)[0] == '&');
            assert(a.contains(a[0]));
        }
        let t = a.skip(1);
        assert forall|i: int| 0 <= i < t.len() implies t[i] != '&' by {
            assert(a.contains(a[i + 1]));
        }
        lemma_this_entity(t, e, b, with);
        assert(s.skip(1) =~= t + e + b);
        assert(text::replaced(s, e, with) =~= a + with + b);
    }
}

proof fn lemma_entity(a: Seq<char>, e: Seq<char>, b: Seq<char>, c: char)
    requires
        !a.contains('&'),
        !b.contains('&'),
        (e == "&lt;"@ && c == '<') || (e == "&gt;"@ && c == '>') || (e == "&nbsp;"@ && c == ' ')
            || (e == "&quot;"@ && c == '"') || (e == "&#39;"@ && c == '\''),
    ensures
        decoded(a + e + b) == a + seq![c] + b,
{
    reveal_strlit("&lt;");
    reveal_strlit("&gt;");
    reveal_strlit("&nbsp;");
    reveal_strlit("&quot;");
    reveal_strlit("&#39;");
    reveal_strlit("&amp;");
    reveal_strlit("<");
    reveal_strlit(">");
    reveal_strlit(" ");
    reveal_strlit("\"");
    reveal_strlit("'");
    assert("<"@ =~= seq!['<'] && ">"@ =~= seq!['>'] && " "@ =~= seq![' ']);
    assert("\""@ =~= seq!['"'] && "'"@ =~= seq!['\'']);
    let s = a + e + b;
    let r = a + seq![c] + b;
    assert forall|i: int| 0 <= i < r.len() implies r[i] != '&' by {
        if i < a.len() {
            assert(a.contains(a[i]));
        } else if i > a.len() {
            assert(b.contains(b[i - a.len() - 1]));
        }
    }
    lemma_this_entity(a, e, b, seq![c]);
    lemma_untouched(r, "&nbsp;"@, " "@);
    lemma_untouched(r, "&amp;"@, "&"@);
    lemma_untouched(r, "&lt;"@, "<"@);
    lemma_untouched(r, "&gt;"@, ">"@);
    lemma_untouched(r, "&quot;"@, "\""@);
    lemma_untouched(r, "&#39;"@, "'"@);
    if e != "&nbsp;"@ {
        lemma_other_entity(a, e, b, "&nbsp;"@, " "@);
        lemma_other_entity(a, e, b, "&amp;"@, "&"@);
        if e != "&lt;"@ {
            lemma_other_entity(a, e, b, "&lt;"@, "<"@);
            if e != "&gt;"@ {
                lemma_other_entity(a, e, b, "&gt;"@, ">"@);
                if e != "&quot;"@ {
                    lemma_other_entity(a, e, b, "&quot;"@, "\""@);
                }
            }
        }
    }
}

/// A page is shown line by line, each trimmed, and of blank lines in a row one is
/// shown.
pub proof fn law_blank_lines_collapse(lines: Seq<Seq<char>>, line: Seq<char>)
    ensures
        ({
            let (before, blank) = collapsed_lines(lines);
            let (r, then) = collapsed_lines(lines.push(line));
            &&& then == is_blank(line)
            &&& is_blank(line) && blank ==> r == before
            &&& !(is_blank(line) && blank) ==> r == before + text::trimmed(line) + seq!['\n']
        }),
        collapsed_lines(Seq::empty()) == (Seq::<char>::empty(), false),
{
    assert(lines.push(line).drop_last() =~= lines);
    law_blank_text_trims_to_nothing(line);
    reveal_strlit("\n");
    assert("\n"@ =~= seq!['\n']);
}

/// Whether a text is a line of plain words.
pub open spec fn is_plain_line(s: Seq<char>) -> bool {
    &&& is_tight(s)
    &&& !s.contains('<')
    &&& !s.contains('&')
    &&& !s.contains('\n')
    &&& !s.contains('\r')
}

/// The text on the two sides of a tag stands on two lines.
pub proof fn law_pages_are_shown_line_by_line(a: Seq<char>, tag: Seq<char>, b: Seq<char>)
    requires
        is_plain_line(a),
        is_plain_line(b),
        !tag.contains('>'),
        tag.len() > 0,
        tag[0] != 's',
        tag[0] != 'S',
    ensures
        page_text(a + seq!['<'] + tag + seq!['>'] + b) == a + seq!['\n'] + b,
{
    law_tags_break_lines(a, tag, b);
    law_text_outside_tags_stays(b, Seq::empty());
    assert(b + Seq::<char>::empty() =~= b);
    let shown = a + seq!['\n'] + b;
    let none = seq!['\n'];
    assert(!none.contains('&'));
    lemma_no_amp_two(a, none);
    lemma_no_amp_two(a + none, b);
    lemma_plain_decoded(shown);
    assert(shown =~= a.push('\n') + b);
    lemma_two_lines(a, b);
}

/// A page of one line is that line, with its entities read.
pub proof fn law_pages_are_decoded(a: Seq<char>, b: Seq<char>)
    requires
        is_plain_line(a),
        is_plain_line(b),
    ensures
        page_text(a) == a,
        page_text(a + "&gt;"@ + b) == a + seq!['>'] + b,
{
    law_text_outside_tags_stays(a, Seq::empty());
    assert(a + Seq::<char>::empty() =~= a);
    lemma_plain_decoded(a);
    lemma_one_line(a);
    reveal_strlit("&gt;");
    let s = a + "&gt;"@ + b;
    assert forall|i: int| 0 <= i < s.len() implies s[i] != '<' by {
        if i < a.len() {
            assert(a.contains(a[i]));
        } else if i >= a.len() + 4 {
            assert(b.contains(b[i - a.len() - 4]));
        }
    }
    law_text_outside_tags_stays(s, Seq::empty());
    assert(s + Seq::<char>::empty() =~= s);
    law_entities_stand_for_characters(a, b);
    let t = a + seq!['>'] + b;
    assert forall|i: int| 0 <= i < t.len() implies t[i] != '\n' && t[i] != '\r' by {
        if i < a.len() {
            assert(a.contains(a[i]));
        } else if i > a.len() {
            assert(b.contains(b[i - a.len() - 1]));
        }
    }
    assert(t[t.len() - 1] == b[b.len() - 1] && t[0] == a[0]);
    lemma_one_line(t);
}

proof fn lemma_one_line(a: Seq<char>)
    requires
        is_tight(a),
        !a.contains('\n'),
        !a.contains('\r'),
    ensures
        text::lines_of(a) == seq![a],
        text::trimmed(collapsed_lines(text::lines_of(a)).0) == a,
{
    text::lemma_pieces_single(a, '\n');
    assert(a.contains(a.last()));
    assert(text::lines_of(a) =~= seq![a]);
    let none = Seq::<Seq<char>>::empty();
    assert(none.push(a) =~= seq![a]);
    law_blank_lines_collapse(none, a);
    assert(!is_blank(a)) by {
        assert(!text::is_white(a[0]));
    }
    lemma_trims_to_itself(a);
    let ended = Seq::<char>::empty() + a + seq!['\n'];
    assert(ended =~= Seq::<char>::empty() + a + seq!['\n']);
    crate::laws::text::law_trimming(Seq::empty(), a, seq!['\n']);
}

proof fn lemma_trims_to_itself(a: Seq<char>)
    requires
        is_tight(a),
    ensures
        text::trimmed(a) == a,
{
    let none = Seq::<char>::empty();
    assert(none + a + none =~= a);
    crate::laws::text::law_trimming(none, a, none);
}

proof fn lemma_two_lines(a: Seq<char>, b: Seq<char>)
    requires
        is_tight(a),
        is_tight(b),
        !a.contains('\n'),
        !b.contains('\n'),
        !a.contains('\r'),
        !b.contains('\r'),
    ensures
        text::trimmed(collapsed_lines(text::lines_of(a.push('\n') + b)).0) == a + seq!['\n'] + b,
{
    crate::laws::text::law_carriage_returns_end_lines(a, b);
    lemma_one_line(b);
    assert(a.contains(a.last()));
    let first = Seq::<Seq<char>>::empty().push(a);
    assert(seq![a] + seq![b] =~= first.push(b));
    law_blank_lines_collapse(Seq::empty(), a);
    law_blank_lines_collapse(first, b);
    assert(!is_blank(a)) by {
        assert(!text::is_white(a[0]));
    }
    assert(!is_blank(b)) by {
        assert(!text::is_white(b[0]));
    }
    lemma_trims_to_itself(a);
    lemma_trims_to_itself(b);
    let both = a + seq!['\n'] + b;
    let all = collapsed_lines(first.push(b)).0;
    assert(all =~= Seq::<char>::empty() + both + seq!['\n']);
    crate::laws::text::law_trimming(Seq::empty(), both, seq!['\n']);
}

// ---------------------------------------------------------------------------
// Task lists
// ---------------------------------------------------------------------------

/// A task list is read item by item, and one bad item spoils it.
pub proof fn law_tasks_are_read_in_order(items: Seq<Json>, item: Json)
    ensures
        todos_of(items) is Err ==> todos_of(items.push(item)) == todos_of(items),
        todos_of(items) matches Ok(list) ==> (match todo_of(item, items.len() as int) {
            Ok(t) => todos_of(items.push(item)) == Ok::<Seq<TodoView>, Seq<char>>(list.push(t)),
            Err(e) => todos_of(items.push(item)) == Err::<Seq<TodoView>, Seq<char>>(e),
        }),
        todos_of(Seq::empty()) == Ok::<Seq<TodoView>, Seq<char>>(Seq::empty()),
{
    assert(items.push(item).drop_last() =~= items);
}

/// A task has its text and one of three states, and is still to be done where
/// nothing is said.
pub proof fn law_tasks_have_a_state(item: Json, i: int)
    ensures
        str_field(item, "content"@) is None ==> todo_of(item, i) is Err,
        str_field(item, "content"@) matches Some(c) ==> {
            &&& str_field(item, "status"@) is None ==> todo_of(item, i) == Ok::<
                TodoView,
                Seq<char>,
            >(TodoView { content: c, status: TodoStatus::Pending })
            &&& str_field(item, "status"@) matches Some(s) ==> {
                &&& status_named(s) matches Some(st) ==> todo_of(item, i) == Ok::<
                    TodoView,
                    Seq<char>,
                >(TodoView { content: c, status: st })
                &&& status_named(s) is None ==> todo_of(item, i) is Err
            }
        },
        status_named("pending"@) == Some(TodoStatus::Pending),
        status_named("in_progress"@) == Some(TodoStatus::InProgress),
        status_named("completed"@) == Some(TodoStatus::Completed),
{
    reveal_strlit("pending");
    reveal_strlit("in_progress");
    reveal_strlit("completed");
    assert("pending"@.len() == 7 && "in_progress"@.len() == 11 && "completed"@.len() == 9);
}

/// Each task is shown on a line of its own, and counted by its state.
pub proof fn law_tasks_are_shown_and_counted(
    items: Seq<TodoView>,
    t: TodoView,
    status: TodoStatus,
)
    ensures
        todo_lines(items.push(t)) == todo_lines(items) + status_glyph(t.status) + seq![' ']
            + t.content + seq!['\n'],
        count_status(items.push(t), status) == count_status(items, status) + if t.status == status {
            1nat
        } else {
            0
        },
        count_status(Seq::empty(), status) == 0,
        progress_text(items) == text::decimal(count_status(items, TodoStatus::Completed)) + seq!['/']
            + text::decimal(items.len()) + seq![' ', 'd', 'o', 'n', 'e'],
{
    assert(items.push(t).drop_last() =~= items);
    reveal_strlit(" ");
    reveal_strlit("\n");
    reveal_strlit("/");
    reveal_strlit(" done");
    assert(" "@ =~= seq![' '] && "\n"@ =~= seq!['\n'] && "/"@ =~= seq!['/']);
    assert(" done"@ =~= seq![' ', 'd', 'o', 'n', 'e']);
}

// ---------------------------------------------------------------------------
// Commands
// ---------------------------------------------------------------------------

/// What a command wrote is shown, both streams where both hold something.
pub proof fn law_both_streams_are_shown(out: Seq<char>, err: Seq<char>)
    ensures
        is_blank(err) ==> both_streams(out, err) == out,
        !is_blank(err) && is_blank(out) ==> both_streams(out, err) == err,
        !is_blank(err) && !is_blank(out) ==> both_streams(out, err) == out
            + "\n--- stderr ---\n"@ + err,
{
    law_blank_text_trims_to_nothing(out);
    law_blank_text_trims_to_nothing(err);
}

/// A command has two minutes, or as long as is asked for, up to ten.
pub proof fn law_commands_have_time(args: Json)
    ensures
        uint_field(args, "timeout"@) is None ==> bash_timeout(args) == 120,
        uint_field(args, "timeout"@) matches Some(n) ==> {
            &&& 1 <= n <= 600 ==> bash_timeout(args) == n
            &&& n == 0 ==> bash_timeout(args) == 1
            &&& n > 600 ==> bash_timeout(args) == 600
        },
{
}

/// What a command printed is what the model gets, where it is not too long. A
/// failure is told with its status, and silence is told as such.
pub proof fn law_output_is_told(
    o: ToolOutcome,
    code: Option<i32>,
    success: bool,
    output: String,
    elapsed: Duration,
)
    requires
        is_bash_outcome(o, Ended::Exited { code, success, output, elapsed }),
        text::byte_count(output@) <= 49_152,
    ensures
        o.is_error == !success,
        success && !is_blank(output@) ==> o.content@ == output@,
        !success && !is_blank(output@) ==> (code matches Some(c) ==> o.content@ == "exit status "@
            + text::signed_decimal(c as int) + "\n\n"@ + output@),
        success && is_blank(output@) ==> (code matches Some(c) ==> o.content@
            == "(no output, exit "@ + text::signed_decimal(c as int) + ")"@),
{
    law_blank_text_trims_to_nothing(output@);
}

/// What came in since the last look is shown, line by line, and the end of the
/// shell is told.
pub proof fn law_polls_show_what_came_in(s: ShellView)
    ensures
        text::joined(s.pending, seq!['\n']).len() > 0 && !s.finished ==> poll_text(s)
            == text::joined(s.pending, seq!['\n']),
        text::joined(s.pending, seq!['\n']).len() > 0 && s.finished ==> (s.exit_code matches Some(c)
            ==> poll_text(s) == text::joined(s.pending, seq!['\n'])
            + "\n\n[shell exited with status "@ + text::signed_decimal(c as int) + "]"@),
        text::joined(s.pending, seq!['\n']).len() == 0 && !s.finished ==> poll_text(s)
            == "(no new output)"@,
{
    reveal_strlit("\n");
    assert("\n"@ =~= seq!['\n']);
}

/// A line that comes in is kept, and only where there are too many does the
/// oldest go.
pub proof fn law_lines_are_kept(pending: Seq<Seq<char>>, line: Seq<char>)
    requires
        pending.len() <= 5_000,
    ensures
        pending.len() < 5_000 ==> with_line(pending, line) == pending.push(line),
        pending.len() == 5_000 ==> with_line(pending, line) == pending.skip(1).push(line),
{
}

} // verus!
