//! Trimming, joining, replacing, cutting into words and lines, and numbers.
use vstd::prelude::*;
use crate::text::{
    all_digits, contains, decimal, digits_value, is_digit, is_white, joined, lemma_trimmed_end,
    lemma_trimmed_start, lines_of, occurrences, occurs_at, replaced, right_aligned, starts_with,
    trimmed, trimmed_end, trimmed_start, without_cr, words_of, words_scan,
};

verus! {

/// Whether `s` begins and ends with a character that is no white space.
pub open spec fn is_tight(s: Seq<char>) -> bool {
    s.len() > 0 && !is_white(s[0]) && !is_white(s[s.len() - 1])
}

/// Whether `s` is white space throughout.
pub open spec fn is_blank(s: Seq<char>) -> bool {
    forall|i: int| 0 <= i < s.len() ==> is_white(#[trigger] s[i])
}

/// What precedes the first character that is no white space is all that trimming
/// the start takes away.
pub proof fn law_trimming_the_start(before: Seq<char>, s: Seq<char>)
    requires
        is_blank(before),
        s.len() == 0 || !is_white(s[0]),
    ensures
        trimmed_start(before + s) == s,
    decreases before.len(),
{
    let t = before + s;
    if before.len() > 0 {
        assert(is_white(before[0]));
        assert(t.skip(1) =~= before.skip(1) + s);
        assert forall|i: int| 0 <= i < before.skip(1).len() implies is_white(
            #[trigger] before.skip(1)[i],
        ) by {
            assert(is_white(before[i + 1]));
        }
        law_trimming_the_start(before.skip(1), s);
    } else {
        assert(t =~= s);
    }
}

/// What follows the last character that is no white space is all that trimming
/// the end takes away.
pub proof fn law_trimming_the_end(s: Seq<char>, after: Seq<char>)
    requires
        is_blank(after),
        s.len() == 0 || !is_white(s[s.len() - 1]),
    ensures
        trimmed_end(s + after) == s,
    decreases after.len(),
{
    let t = s + after;
    if after.len() > 0 {
        assert(is_white(after[after.len() - 1]));
        assert(t.drop_last() =~= s + after.drop_last());
        assert forall|i: int| 0 <= i < after.drop_last().len() implies is_white(
            #[trigger] after.drop_last()[i],
        ) by {
            assert(is_white(after[i]));
        }
        law_trimming_the_end(s, after.drop_last());
    } else {
        assert(t =~= s);
    }
}

/// Trimming takes away the white space at both ends, and nothing else.
pub proof fn law_trimming(before: Seq<char>, s: Seq<char>, after: Seq<char>)
    requires
        is_blank(before),
        is_blank(after),
        s.len() == 0 || is_tight(s),
    ensures
        trimmed(before + s + after) == s,
{
    let inner = s + after;
    assert(before + s + after =~= before + inner);
    if s.len() > 0 {
        assert(inner[0] == s[0]);
        law_trimming_the_start(before, inner);
        law_trimming_the_end(s, after);
    } else {
        let all = before + after;
        assert forall|i: int| 0 <= i < all.len() implies is_white(#[trigger] all[i]) by {
            if i < before.len() {
                assert(is_white(before[i]));
            } else {
                assert(is_white(after[i - before.len()]));
            }
        }
        law_trimming_the_start(all, Seq::empty());
        assert(all + Seq::<char>::empty() =~= before + s + after);
        assert(trimmed_end(Seq::<char>::empty()) =~= s);
    }
}

/// Trimming leaves nothing of white space, and something of any other text.
pub proof fn law_blank_text_trims_to_nothing(s: Seq<char>)
    ensures
        (trimmed(s).len() == 0) == is_blank(s),
{
    let none: Seq<char> = Seq::empty();
    if is_blank(s) {
        law_trimming(s, none, none);
        assert(s + none + none =~= s);
    } else {
        let i = choose|i: int| 0 <= i < s.len() && !is_white(#[trigger] s[i]);
        lemma_trimmed_start(s);
        let t = trimmed_start(s);
        let k = s.len() - t.len();
        if i < k {
            assert(is_white(s[i]));
        }
        assert(t[i - k] == s[i]);
        lemma_trimmed_end(t);
        if trimmed(s).len() == 0 {
            assert(is_white(t[i - k]));
        }
    }
}

/// Whether `p` is what `s` holds between white space.
pub open spec fn holds_just(s: Seq<char>, p: Seq<char>) -> bool {
    exists|before: Seq<char>, after: Seq<char>|
        is_blank(before) && is_blank(after) && s == #[trigger] (before + p + after)
}

/// A text trims to `p` exactly where it is `p` between white space.
pub proof fn law_trimmed_to(s: Seq<char>, p: Seq<char>)
    requires
        is_tight(p),
    ensures
        (trimmed(s) == p) == holds_just(s, p),
{
    if holds_just(s, p) {
        let (before, after) = choose|before: Seq<char>, after: Seq<char>|
            is_blank(before) && is_blank(after) && s == #[trigger] (before + p + after);
        law_trimming(before, p, after);
    }
    if trimmed(s) == p {
        lemma_trimmed_start(s);
        let t = trimmed_start(s);
        lemma_trimmed_end(t);
        let n = s.len() - t.len();
        let before = s.take(n);
        let after = t.skip(p.len() as int);
        assert forall|i: int| 0 <= i < before.len() implies is_white(#[trigger] before[i]) by {
            assert(is_white(s[i]));
        }
        assert forall|i: int| 0 <= i < after.len() implies is_white(#[trigger] after[i]) by {
            assert(is_white(t[i + p.len()]));
        }
        assert(s =~= before + p + after);
    }
}

/// Joining goes piece by piece.
pub proof fn law_joining(a: Seq<Seq<char>>, b: Seq<Seq<char>>, sep: Seq<char>)
    requires
        a.len() > 0,
        b.len() > 0,
    ensures
        joined(a + b, sep) == joined(a, sep) + sep + joined(b, sep),
        a.len() == 1 ==> joined(a, sep) == a[0],
    decreases b.len(),
{
    let all = a + b;
    assert(all.drop_last() =~= a + b.drop_last());
    if b.len() == 1 {
        assert(a + b.drop_last() =~= a);
    } else {
        law_joining(a, b.drop_last(), sep);
        assert(joined(all, sep) =~= joined(a, sep) + sep + joined(b, sep));
    }
}

/// Whether `parts` are what `s` falls into where it is cut at each occurrence of
/// `pat`, from the left and without overlap: `pat` stands between any two parts
/// and nowhere before.
pub open spec fn is_cut_at(s: Seq<char>, pat: Seq<char>, parts: Seq<Seq<char>>) -> bool {
    &&& parts.len() > 0
    &&& s == joined(parts, pat)
    &&& !contains(parts.last(), pat)
    &&& forall|k: int, j: int|
        0 <= k < parts.len() - 1 && #[trigger] occurs_at(parts[k] + pat, pat, j) ==> j
            == parts[k].len()
}

spec fn cut(s: Seq<char>, pat: Seq<char>) -> Seq<Seq<char>>
    decreases s.len(),
{
    if pat.len() == 0 || s.len() < pat.len() {
        seq![s]
    } else if starts_with(s, pat) {
        seq![Seq::<char>::empty()] + cut(s.skip(pat.len() as int), pat)
    } else {
        let rest = cut(s.skip(1), pat);
        seq![seq![s[0]] + rest[0]] + rest.skip(1)
    }
}

proof fn lemma_cut_head(s: Seq<char>, pat: Seq<char>)
    requires
        pat.len() > 0,
    ensures
        cut(s, pat).len() > 0,
        cut(s, pat).len() == 1 ==> cut(s, pat)[0] == s && !contains(s, pat),
        cut(s, pat).len() > 1 ==> {
            let h = cut(s, pat)[0];
            &&& occurs_at(s, pat, h.len() as int)
            &&& s.take(h.len() as int) == h
            &&& forall|j: int| #[trigger] occurs_at(s, pat, j) ==> j >= h.len()
            &&& cut(s, pat).skip(1) == cut(s.skip((h.len() + pat.len()) as int), pat)
        },
    decreases s.len(),
{
    let all = cut(s, pat);
    if s.len() < pat.len() {
    } else if starts_with(s, pat) {
        lemma_cut_head(s.skip(pat.len() as int), pat);
        assert(s.take(0) =~= Seq::<char>::empty());
        assert(all.skip(1) =~= cut(s.skip(pat.len() as int), pat));
    } else {
        let t = s.skip(1);
        let rest = cut(t, pat);
        lemma_cut_head(t, pat);
        let h = rest[0];
        assert forall|j: int| #[trigger] occurs_at(s, pat, j) implies j > 0 && occurs_at(
            t,
            pat,
            j - 1,
        ) by {
            assert(j != 0);
            assert(t.subrange(j - 1, j - 1 + pat.len()) =~= s.subrange(j, j + pat.len()));
        }
        assert(all.skip(1) =~= rest.skip(1));
        if all.len() == 1 {
            assert(all[0] =~= s);
        } else {
            assert(s.subrange(
                h.len() as int + 1,
                h.len() as int + 1 + pat.len(),
            ) =~= t.subrange(
                h.len() as int,
                (h.len() + pat.len()) as int,
            ));
            assert(s.take(h.len() as int + 1) =~= seq![s[0]] + t.take(h.len() as int));
            assert(t.skip((h.len() + pat.len()) as int) =~= s.skip(
                (h.len() + 1 + pat.len()) as int,
            ));
        }
    }
}

proof fn lemma_cut(s: Seq<char>, pat: Seq<char>)
    requires
        pat.len() > 0,
    ensures
        is_cut_at(s, pat, cut(s, pat)),
    decreases s.len(),
{
    let parts = cut(s, pat);
    lemma_cut_head(s, pat);
    let h = parts[0];
    if parts.len() > 1 {
        let n = h.len() + pat.len();
        let t = s.skip(n as int);
        let rest = parts.skip(1);
        lemma_cut(t, pat);
        assert(parts =~= seq![h] + rest);
        law_joining(seq![h], rest, pat);
        assert(s =~= s.take(h.len() as int) + s.subrange(h.len() as int, n as int) + t);
        assert(parts.last() == rest.last());
        assert forall|k: int, j: int|
            0 <= k < parts.len() - 1 && #[trigger] occurs_at(parts[k] + pat, pat, j) implies j
            == parts[k].len() by {
            if k == 0 {
                assert((h + pat) =~= s.take(n as int));
                assert(s.subrange(j, j + pat.len()) =~= (h + pat).subrange(j, j + pat.len()));
                assert(occurs_at(s, pat, j));
            } else {
                assert(occurs_at(rest[k - 1] + pat, pat, j));
            }
        }
    }
}

proof fn lemma_cut_replaced(s: Seq<char>, pat: Seq<char>, with: Seq<char>)
    requires
        pat.len() > 0,
    ensures
        replaced(s, pat, with) == joined(cut(s, pat), with),
        occurrences(s, pat) == cut(s, pat).len() - 1,
    decreases s.len(),
{
    if s.len() >= pat.len() {
        if starts_with(s, pat) {
            let t = s.skip(pat.len() as int);
            lemma_cut_head(t, pat);
            lemma_cut_replaced(t, pat, with);
            law_joining(seq![Seq::<char>::empty()], cut(t, pat), with);
            assert(Seq::<char>::empty() + with =~= with);
        } else {
            let t = s.skip(1);
            let rest = cut(t, pat);
            lemma_cut_head(t, pat);
            lemma_cut_replaced(t, pat, with);
            let head = seq![s[0]] + rest[0];
            if rest.len() > 1 {
                law_joining(seq![rest[0]], rest.skip(1), with);
                law_joining(seq![head], rest.skip(1), with);
                assert(seq![rest[0]] + rest.skip(1) =~= rest);
                assert(replaced(s, pat, with) =~= head + with + joined(rest.skip(1), with));
            } else {
                assert(cut(s, pat) =~= seq![head]);
            }
        }
    }
}

/// Replacing every occurrence of a text puts the other text in each place where
/// it stood, and leaves all else: what was cut at the one is joined by the other.
pub proof fn law_replacing(s: Seq<char>, pat: Seq<char>, with: Seq<char>)
    requires
        pat.len() > 0,
    ensures
        exists|parts: Seq<Seq<char>>|
            #[trigger] is_cut_at(s, pat, parts) && replaced(s, pat, with) == joined(parts, with)
                && occurrences(s, pat) == parts.len() - 1,
{
    lemma_cut(s, pat);
    lemma_cut_replaced(s, pat, with);
    assert(is_cut_at(s, pat, cut(s, pat)));
}

/// What holds no occurrence is left as it is.
pub proof fn law_replacing_nothing(s: Seq<char>, pat: Seq<char>, with: Seq<char>)
    requires
        pat.len() > 0,
        !contains(s, pat),
    ensures
        replaced(s, pat, with) == s,
        occurrences(s, pat) == 0,
{
    lemma_cut_head(s, pat);
    lemma_cut_replaced(s, pat, with);
    if cut(s, pat).len() > 1 {
        assert(occurs_at(s, pat, cut(s, pat)[0].len() as int));
    }
}

/// Two occurrences that do not overlap count as two.
pub proof fn law_counting(s: Seq<char>, pat: Seq<char>, i: int, j: int)
    requires
        pat.len() > 0,
        occurs_at(s, pat, i),
        occurs_at(s, pat, j),
        i + pat.len() <= j,
    ensures
        occurrences(s, pat) >= 2,
    decreases s.len(),
{
    if starts_with(s, pat) {
        let t = s.skip(pat.len() as int);
        let m = j - pat.len();
        assert(t.subrange(m, m + pat.len()) =~= s.subrange(j, j + pat.len()));
        assert(occurs_at(t, pat, m));
        lemma_cut_head(t, pat);
        lemma_cut_replaced(t, pat, pat);
    } else {
        assert(i != 0);
        let t = s.skip(1);
        assert(t.subrange(i - 1, i - 1 + pat.len()) =~= s.subrange(i, i + pat.len()));
        assert(t.subrange(j - 1, j - 1 + pat.len()) =~= s.subrange(j, j + pat.len()));
        law_counting(t, pat, i - 1, j - 1);
    }
}

/// A text that counts more than once stands in two places that do not overlap.
pub proof fn law_counted_twice(s: Seq<char>, pat: Seq<char>)
    requires
        pat.len() > 0,
        occurrences(s, pat) >= 2,
    ensures
        exists|i: int, j: int|
            #[trigger] occurs_at(s, pat, i) && #[trigger] occurs_at(s, pat, j) && i + pat.len()
                <= j,
{
    lemma_cut_replaced(s, pat, pat);
    lemma_cut_head(s, pat);
    let h = cut(s, pat)[0].len() as int;
    let n = h + pat.len();
    let t = s.skip(n);
    lemma_cut_head(t, pat);
    let k = cut(t, pat)[0].len() as int;
    assert(s.subrange(n + k, n + k + pat.len()) =~= t.subrange(k, k + pat.len()));
    assert(occurs_at(s, pat, h));
    assert(occurs_at(s, pat, n + k));
}

// ---------------------------------------------------------------------------
// Words
// ---------------------------------------------------------------------------

proof fn lemma_scan_word(a: Seq<char>, w: Seq<char>)
    requires
        forall|i: int| 0 <= i < w.len() ==> !is_white(#[trigger] w[i]),
    ensures
        words_scan(a + w) == (words_scan(a).0, words_scan(a).1 + w),
    decreases w.len(),
{
    if w.len() == 0 {
        assert(a + w =~= a);
        assert(words_scan(a).1 + w =~= words_scan(a).1);
    } else {
        let v = w.drop_last();
        assert forall|i: int| 0 <= i < v.len() implies !is_white(#[trigger] v[i]) by {
            assert(!is_white(w[i]));
        }
        lemma_scan_word(a, v);
        assert((a + w).drop_last() =~= a + v);
        assert(!is_white(w[w.len() - 1]));
        assert((words_scan(a).1 + v).push(w.last()) =~= words_scan(a).1 + w);
    }
}

proof fn lemma_scan_after(a: Seq<char>, c: char, b: Seq<char>)
    requires
        is_white(c),
    ensures
        words_scan(a.push(c) + b) == (words_of(a) + words_scan(b).0, words_scan(b).1),
    decreases b.len(),
{
    let s = a.push(c) + b;
    if b.len() == 0 {
        assert(s =~= a.push(c));
        assert(s.drop_last() =~= a);
        assert(words_scan(s).0 =~= words_of(a) + words_scan(b).0);
    } else {
        lemma_scan_after(a, c, b.drop_last());
        assert(s.drop_last() =~= a.push(c) + b.drop_last());
        assert(words_scan(s).0 =~= words_of(a) + words_scan(b).0);
    }
}

/// White space parts words: the words of a text are those before a white space
/// character and those after it.
pub proof fn law_white_space_parts_words(a: Seq<char>, c: char, b: Seq<char>)
    requires
        is_white(c),
    ensures
        words_of(a.push(c) + b) == words_of(a) + words_of(b),
{
    lemma_scan_after(a, c, b);
    assert(words_of(a.push(c) + b) =~= words_of(a) + words_of(b));
}

/// A text without white space is one word, and an empty one is none.
pub proof fn law_one_word(w: Seq<char>)
    requires
        forall|i: int| 0 <= i < w.len() ==> !is_white(#[trigger] w[i]),
    ensures
        words_of(w) == if w.len() > 0 {
            seq![w]
        } else {
            Seq::empty()
        },
{
    let none: Seq<char> = Seq::empty();
    lemma_scan_word(none, w);
    assert(none + w =~= w);
    assert(words_scan(none).1 + w =~= w);
    assert(words_of(w) =~= if w.len() > 0 {
        seq![w]
    } else {
        Seq::empty()
    });
}

/// Every word is made of characters that are no white space, and of at least
/// one.
pub proof fn law_words_hold_no_white_space(s: Seq<char>)
    ensures
        forall|k: int, i: int|
            0 <= k < words_of(s).len() && 0 <= i < words_of(s)[k].len() ==> !is_white(
                #[trigger] words_of(s)[k][i],
            ),
        forall|k: int| 0 <= k < words_of(s).len() ==> (#[trigger] words_of(s)[k]).len() > 0,
        forall|i: int| 0 <= i < words_scan(s).1.len() ==> !is_white(#[trigger] words_scan(s).1[i]),
    decreases s.len(),
{
    if s.len() > 0 {
        let t = s.drop_last();
        law_words_hold_no_white_space(t);
        let (done, cur) = words_scan(t);
        let w = words_of(t);
        assert forall|k: int| 0 <= k < done.len() implies done[k] == #[trigger] w[k] by {}
        if cur.len() > 0 {
            assert(w[done.len() as int] == cur);
        }
        assert forall|k: int, i: int|
            0 <= k < words_of(s).len() && 0 <= i < words_of(s)[k].len() implies !is_white(
            #[trigger] words_of(s)[k][i],
        ) by {
            if k < w.len() && words_of(s)[k] == w[k] {
                assert(!is_white(w[k][i]));
            } else {
                let c = words_scan(s).1;
                if i < cur.len() {
                    assert(!is_white(cur[i]));
                }
            }
        }
        assert forall|i: int| 0 <= i < words_scan(s).1.len() implies !is_white(
            #[trigger] words_scan(s).1[i],
        ) by {
            if i < cur.len() {
                assert(!is_white(cur[i]));
            }
        }
        assert forall|k: int| 0 <= k < words_of(s).len() implies (
        #[trigger] words_of(s)[k]).len() > 0 by {
            if k < w.len() {
                assert(w[k].len() > 0);
            }
        }
    }
}

// ---------------------------------------------------------------------------
// Lines and numbers
// ---------------------------------------------------------------------------

/// Whether a text can be a line: it holds no line break, and does not end with
/// the half of one.
pub open spec fn is_line(s: Seq<char>) -> bool {
    !s.contains('\n') && (s.len() > 0 ==> s[s.len() - 1] != '\r')
}

/// Lines that are joined by line breaks are read back as they were, with a line
/// break behind the last or, where that is not empty, without one. A carriage
/// return before a line break is part of it.
pub proof fn law_lines_are_read_back(lines: Seq<Seq<char>>)
    requires
        forall|i: int| 0 <= i < lines.len() ==> is_line(#[trigger] lines[i]),
    ensures
        lines_of(joined(lines.push(Seq::empty()), seq!['\n'])) == lines,
        lines.len() > 0 && lines.last().len() > 0 ==> lines_of(joined(lines, seq!['\n']))
            == lines,
{
    let none: Seq<char> = Seq::empty();
    let more = lines.push(none);
    assert forall|i: int| 0 <= i < more.len() implies !(#[trigger] more[i]).contains('\n') by {
        if i < lines.len() {
            assert(is_line(lines[i]));
        }
    }
    crate::text::lemma_pieces_joined(more, '\n');
    let cr = |l: Seq<char>| without_cr(l);
    assert(more.drop_last() =~= lines);
    assert forall|i: int| 0 <= i < lines.len() implies cr(#[trigger] lines[i]) == lines[i] by {
        assert(is_line(lines[i]));
    }
    assert(more.drop_last().map_values(cr) =~= lines);
    if lines.len() > 0 && lines.last().len() > 0 {
        assert forall|i: int| 0 <= i < lines.len() implies !(#[trigger] lines[i]).contains(
            '\n',
        ) by {
            assert(is_line(lines[i]));
        }
        crate::text::lemma_pieces_joined(lines, '\n');
        assert(lines.drop_last().map_values(cr) =~= lines.drop_last()) by {
            assert forall|i: int| 0 <= i < lines.len() - 1 implies cr(#[trigger] lines[i])
                == lines[i] by {}
        }
        assert(lines.drop_last().push(lines.last()) =~= lines);
    }
}

/// A carriage return before a line break goes with it.
pub proof fn law_carriage_returns_end_lines(a: Seq<char>, b: Seq<char>)
    requires
        !a.contains('\n'),
    ensures
        lines_of(a + seq!['\r', '\n'] + b) == seq![a] + lines_of(b),
        (a.len() == 0 || a[a.len() - 1] != '\r') ==> lines_of(a.push('\n') + b) == seq![a]
            + lines_of(b),
{
    let cr = |l: Seq<char>| without_cr(l);
    let c = a.push('\r');
    assert(a + seq!['\r', '\n'] + b =~= c.push('\n') + b);
    assert forall|i: int| 0 <= i < c.len() implies c[i] != '\n' by {
        if i < a.len() {
            assert(a.contains(a[i]));
        }
    }
    lemma_first_line(c, b);
    lemma_first_line(a, b);
    assert(c.drop_last() =~= a);
}

proof fn lemma_first_line(a: Seq<char>, b: Seq<char>)
    requires
        !a.contains('\n'),
    ensures
        lines_of(a.push('\n') + b) == seq![without_cr(a)] + lines_of(b),
{
    let cr = |l: Seq<char>| without_cr(l);
    crate::text::lemma_pieces_concat(a, b, '\n');
    crate::text::lemma_pieces_single(a, '\n');
    crate::text::lemma_pieces_nonempty(b, '\n');
    let p = crate::text::pieces(b, '\n');
    let q = seq![a] + p;
    assert(q.drop_last() =~= seq![a] + p.drop_last());
    assert(q.drop_last().map_values(cr) =~= seq![without_cr(a)] + p.drop_last().map_values(cr));
    assert(lines_of(a.push('\n') + b) =~= seq![without_cr(a)] + lines_of(b));
}

/// The digits of a number stand for it, and the first of several is no zero.
pub proof fn law_decimals_stand_for_their_number(n: nat)
    ensures
        all_digits(decimal(n)),
        digits_value(decimal(n)) == n,
        decimal(n).len() > 0,
        decimal(n).len() > 1 ==> decimal(n)[0] != '0',
        n > 0 ==> decimal(n)[0] != '0',
    decreases n,
{
    let d = decimal(n);
    if n < 10 {
        assert(d.drop_last() =~= Seq::<char>::empty());
        assert(digits_value(d.drop_last()) == 0);
        assert(d[0] as int == '0' as int + n);
    } else {
        law_decimals_stand_for_their_number(n / 10);
        let front = decimal(n / 10);
        assert(d.drop_last() =~= front);
        assert(d.last() as int == '0' as int + n % 10);
        assert forall|i: int| 0 <= i < d.len() implies is_digit(#[trigger] d[i]) by {
            if i < front.len() {
                assert(d[i] == front[i]);
            }
        }
        assert(d[0] == front[0]);
    }
}

/// A number in a field stands at its right end, behind filling.
pub proof fn law_numbers_stand_on_the_right(s: Seq<char>, width: nat, fill: char)
    ensures
        ({
            let r = right_aligned(s, width, fill);
            let k = r.len() - s.len();
            &&& r.len() >= s.len()
            &&& r.len() >= width
            &&& s.len() < width ==> r.len() == width
            &&& s.len() >= width ==> r == s
            &&& r.skip(k) == s
            &&& forall|i: int| 0 <= i < k ==> #[trigger] r[i] == fill
        }),
{
    let r = right_aligned(s, width, fill);
    assert(r.skip(r.len() - s.len()) =~= s);
}

/// The blanks, the tabs and the line breaks are white space, and what can be seen
/// in plain text is not.
pub proof fn law_white_space(c: char)
    ensures
        c == ' ' || c == '\t' || c == '\n' || c == '\r' || c == '\u{b}' || c == '\u{c}' ==> is_white(c),
        '!' <= c <= '~' ==> !is_white(c),
        c < ' ' && !('\t' <= c <= '\r') ==> !is_white(c),
        c == '\u{85}' || c == '\u{a0}' || c == '\u{1680}' || '\u{2000}' <= c <= '\u{200a}' || c
            == '\u{2028}' || c == '\u{2029}' || c == '\u{202f}' || c == '\u{205f}' || c == '\u{3000}'
            ==> is_white(c),
        is_white(c) && c > '~' ==> c == '\u{85}' || c == '\u{a0}' || c == '\u{1680}' || c
            == '\u{2028}' || c == '\u{2029}' || c == '\u{202f}' || c == '\u{205f}' || c == '\u{3000}'
            || '\u{2000}' <= c <= '\u{200a}',
{
}

/// A run of one character at the start goes, and nothing else.
pub proof fn law_leading_characters_go(n: nat, c: char, s: Seq<char>)
    requires
        s.len() == 0 || s[0] != c,
    ensures
        crate::text::without_start(Seq::new(n, |i: int| c) + s, c) == s,
    decreases n,
{
    let all = Seq::new(n, |i: int| c) + s;
    if n == 0 {
        assert(all =~= s);
    } else {
        assert(all[0] == c);
        assert(all.skip(1) =~= Seq::new((n - 1) as nat, |i: int| c) + s);
        law_leading_characters_go((n - 1) as nat, c, s);
    }
}

/// A run of one character at the end goes, and nothing else.
pub proof fn law_trailing_characters_go(n: nat, c: char, s: Seq<char>)
    requires
        s.len() == 0 || s.last() != c,
    ensures
        crate::text::without_end(s + Seq::new(n, |i: int| c), c) == s,
    decreases n,
{
    let all = s + Seq::new(n, |i: int| c);
    if n == 0 {
        assert(all =~= s);
    } else {
        assert(all.last() == c);
        assert(all.drop_last() =~= s + Seq::new((n - 1) as nat, |i: int| c));
        law_trailing_characters_go((n - 1) as nat, c, s);
    }
}

/// Of two texts that begin alike, the first difference says which comes first, and
/// a text comes before those that go on where it ends.
pub proof fn law_the_first_difference_decides(
    start: Seq<char>,
    a: Seq<char>,
    b: Seq<char>,
)
    ensures
        a.len() > 0 && b.len() > 0 && a[0] != b[0] ==> (crate::table::precedes(
            start + a,
            start + b,
        ) <==> a[0] < b[0]),
        crate::table::precedes(start, start + b) <==> b.len() > 0,
        !crate::table::precedes(start + b, start),
    decreases start.len(),
{
    if start.len() == 0 {
        assert(start + a =~= a);
        assert(start + b =~= b);
    } else {
        let rest = start.skip(1);
        law_the_first_difference_decides(rest, a, b);
        assert((start + a).skip(1) =~= rest + a);
        assert((start + b).skip(1) =~= rest + b);
    }
}

} // verus!
