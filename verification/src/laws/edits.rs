//! What an edit does to a file.
use vstd::prelude::*;
use crate::laws::text::{
    is_blank, is_cut_at, law_blank_text_trims_to_nothing, law_counted_twice, law_counting,
    law_joining, law_replacing,
};
use crate::text;
use crate::tools::edit::{
    block_at, indent_len, indent_of, law_prefixes_undo_numbering, line_start, loose_range,
    moved_line, planned, reindented, sole_block, unnumbered_text, EditError, Recovery,
};
use crate::util::numbered;

verus! {

/// Where everything is to be replaced, each place where the text stands gets the
/// new one, all else stays, and every replacement is counted.
pub proof fn law_every_match_is_replaced(content: Seq<char>, old: Seq<char>, new: Seq<char>)
    requires
        old.len() > 0,
        text::contains(content, old),
    ensures
        exists|parts: Seq<Seq<char>>|
            {
                &&& #[trigger] is_cut_at(content, old, parts)
                &&& parts.len() > 1
                &&& planned(content, old, new, true) matches Ok(p)
                &&& p.updated == text::joined(parts, new)
                &&& p.matches == parts.len() - 1
                &&& p.recovery is None
            },
{
    law_replacing(content, old, new);
    let parts = choose|parts: Seq<Seq<char>>|
        #[trigger] is_cut_at(content, old, parts) && text::replaced(content, old, new)
            == text::joined(parts, new) && text::occurrences(content, old) == parts.len() - 1;
    if parts.len() == 1 {
        assert(parts.last() == content);
    }
    assert(is_cut_at(content, old, parts));
}

/// Where one place is to be replaced, a text that stands in two places is
/// refused, and a refusal for that reason is given only then. Otherwise what
/// precedes the place and what follows it stays.
pub proof fn law_one_place_is_replaced(content: Seq<char>, old: Seq<char>, new: Seq<char>)
    requires
        old.len() > 0,
        text::contains(content, old),
    ensures
        match planned(content, old, new, false) {
            Err(e) => {
                &&& e is Ambiguous
                &&& exists|i: int, j: int|
                    #[trigger] text::occurs_at(content, old, i) && #[trigger] text::occurs_at(
                        content,
                        old,
                        j,
                    ) && i + old.len() <= j
            },
            Ok(p) => {
                &&& p.matches == 1
                &&& p.recovery is None
                &&& exists|before: Seq<char>, after: Seq<char>|
                    content == before + old + after && p.updated == #[trigger] (before + new
                        + after)
                &&& forall|i: int, j: int|
                    #[trigger] text::occurs_at(content, old, i) && #[trigger] text::occurs_at(
                        content,
                        old,
                        j,
                    ) ==> i + old.len() > j
            },
        },
{
    text::lemma_contains_is_found(content, old);
    text::lemma_found_from(content, old, 0);
    law_replacing(content, old, new);
    let parts = choose|parts: Seq<Seq<char>>|
        #[trigger] is_cut_at(content, old, parts) && text::replaced(content, old, new)
            == text::joined(parts, new) && text::occurrences(content, old) == parts.len() - 1;
    if parts.len() == 1 {
        assert(parts.last() == content);
    }
    let k = text::found(content, old)->0;
    let before = content.take(k);
    let after = content.skip(k + old.len());
    assert(content =~= before + content.subrange(k, k + old.len()) + after);
    if text::occurrences(content, old) >= 2 {
        law_counted_twice(content, old);
    } else {
        assert forall|i: int, j: int|
            #[trigger] text::occurs_at(content, old, i) && #[trigger] text::occurs_at(
                content,
                old,
                j,
            ) implies i + old.len() > j by {
            if i + old.len() <= j {
                law_counting(content, old, i, j);
            }
        }
        assert(planned(content, old, new, false)->Ok_0.updated == before + new + after);
    }
}

/// Text copied from a numbered listing is found without the numbers, where it
/// stands in one place only.
pub proof fn law_copied_numbers_are_ignored(
    before: Seq<char>,
    lines: Seq<Seq<char>>,
    after: Seq<char>,
    start: nat,
    new: Seq<char>,
    replace_all: bool,
)
    requires
        lines.len() > 0,
        forall|i: int| 0 <= i < lines.len() ==> !(#[trigger] lines[i]).contains('\n'),
        ({
            let shown = numbered(lines, start, '│');
            let meant = text::joined(lines.push(Seq::empty()), "\n"@);
            let content = before + meant + after;
            &&& !text::contains(content, shown)
            &&& forall|i: int, j: int|
                #[trigger] text::occurs_at(content, meant, i) && #[trigger] text::occurs_at(
                    content,
                    meant,
                    j,
                ) ==> i == j
        }),
    ensures
        ({
            let shown = numbered(lines, start, '│');
            let meant = text::joined(lines.push(Seq::empty()), "\n"@);
            &&& planned(before + meant + after, shown, new, replace_all) matches Ok(p)
            &&& p.updated == before + new + after
            &&& p.matches == 1
            &&& p.recovery == Some(Recovery::Prefixes)
        }),
{
    let shown = numbered(lines, start, '│');
    let meant = text::joined(lines.push(Seq::empty()), "\n"@);
    let content = before + meant + after;
    law_prefixes_undo_numbering(lines, start, '│');
    let b = before.len() as int;
    assert(content.subrange(b, b + meant.len()) =~= meant);
    assert(text::occurs_at(content, meant, b));
    reveal_strlit("\n");
    law_joining(lines, seq![Seq::<char>::empty()], "\n"@);
    assert(lines + seq![Seq::<char>::empty()] =~= lines.push(Seq::empty()));
    assert(meant.len() > 0);
    text::lemma_found_from(content, meant, 0);
    text::lemma_contains_is_found(content, meant);
    assert(text::found(content, meant) == Some(b));
    assert(content.take(b) =~= before);
    assert(content.skip(b + meant.len()) =~= after);
    law_replacing(content, meant, new);
    let parts = choose|parts: Seq<Seq<char>>|
        #[trigger] is_cut_at(content, meant, parts) && text::replaced(content, meant, new)
            == text::joined(parts, new) && text::occurrences(content, meant) == parts.len() - 1;
    if parts.len() == 1 {
        assert(parts.last() == content);
    }
    if text::occurrences(content, meant) >= 2 {
        law_counted_twice(content, meant);
    }
    assert(parts.len() == 2);
    let p0 = parts[0];
    let p1 = parts[1];
    assert(parts =~= seq![p0] + seq![p1]);
    law_joining(seq![p0], seq![p1], meant);
    law_joining(seq![p0], seq![p1], new);
    assert(content.subrange(p0.len() as int, p0.len() as int + meant.len()) =~= meant);
    assert(text::occurs_at(content, meant, p0.len() as int));
    assert(p0 =~= content.take(b));
    assert(p1 =~= content.skip(b + meant.len()));
}

/// What stands nowhere, with or without numbers and whatever its indentation, is
/// not found, and no file is changed on its account.
pub proof fn law_what_is_not_there_is_not_found(
    content: Seq<char>,
    old: Seq<char>,
    new: Seq<char>,
    replace_all: bool,
)
    requires
        !text::contains(content, old),
        unnumbered_text(old) is None,
        forall|at: int|
            !#[trigger] block_at(text::pieces(content, '\n'), text::pieces(old, '\n'), at),
    ensures
        planned(content, old, new, replace_all) == Err::<
            crate::tools::edit::PlanView,
            EditError,
        >(EditError::NotFound),
{
}

// ---------------------------------------------------------------------------
// Indentation
// ---------------------------------------------------------------------------

/// Whether `indent` is all the spaces and tabs that a line begins with.
pub open spec fn is_indent(line: Seq<char>, indent: Seq<char>) -> bool {
    &&& exists|rest: Seq<char>|
        line == #[trigger] (indent + rest) && (rest.len() > 0 ==> rest[0] != ' ' && rest[0] != '\t')
    &&& forall|i: int|
        0 <= i < indent.len() ==> #[trigger] indent[i] == ' ' || indent[i] == '\t'
}

proof fn lemma_indent(line: Seq<char>)
    ensures
        is_indent(line, indent_of(line)),
        indent_len(line) <= line.len(),
    decreases line.len(),
{
    let n = indent_len(line) as int;
    if line.len() > 0 && (line[0] == ' ' || line[0] == '\t') {
        let t = line.skip(1);
        lemma_indent(t);
        let rest = choose|rest: Seq<char>|
            t == #[trigger] (indent_of(t) + rest) && (rest.len() > 0 ==> rest[0] != ' ' && rest[0]
                != '\t');
        assert(indent_of(line) =~= seq![line[0]] + indent_of(t));
        assert(line =~= seq![line[0]] + t);
        assert(line =~= indent_of(line) + rest);
        assert forall|i: int| 0 <= i < indent_of(line).len() implies #[trigger] indent_of(line)[i]
            == ' ' || indent_of(line)[i] == '\t' by {
            if i > 0 {
                assert(indent_of(t)[i - 1] == indent_of(line)[i]);
            }
        }
    } else {
        assert(line =~= indent_of(line) + line);
    }
}

proof fn lemma_is_indent(line: Seq<char>, indent: Seq<char>)
    requires
        is_indent(line, indent),
    ensures
        indent_of(line) == indent,
    decreases line.len(),
{
    let rest = choose|rest: Seq<char>|
        line == #[trigger] (indent + rest) && (rest.len() > 0 ==> rest[0] != ' ' && rest[0]
            != '\t');
    if indent.len() > 0 {
        assert(line[0] == indent[0]);
        let t = line.skip(1);
        let less = indent.skip(1);
        assert(t =~= less + rest);
        assert forall|i: int| 0 <= i < less.len() implies #[trigger] less[i] == ' ' || less[i]
            == '\t' by {
            assert(less[i] == indent[i + 1]);
        }
        lemma_is_indent(t, less);
        lemma_indent(t);
        assert(indent_len(t) == less.len());
        assert(indent_of(line) =~= indent);
    } else {
        assert(line =~= rest);
        assert(indent_of(line) =~= indent);
    }
}

/// A text moves by its first line: every line that begins with the indentation of
/// the first has the new one in its place, and every other line, as well as a
/// blank one, stays as it is.
pub proof fn law_moved_text_keeps_its_shape(s: Seq<char>, from: Seq<char>, to: Seq<char>)
    requires
        is_indent(text::pieces(s, '\n')[0], from),
    ensures
        exists|moved: Seq<Seq<char>>|
            {
                let lines = text::pieces(s, '\n');
                &&& reindented(s, to) == #[trigger] text::joined(moved, seq!['\n'])
                &&& moved.len() == lines.len()
                &&& forall|i: int, rest: Seq<char>|
                    #![trigger moved[i], from + rest]
                    0 <= i < lines.len() && lines[i] == from + rest && !is_blank(lines[i])
                        ==> moved[i] == to + rest
                &&& forall|i: int|
                    0 <= i < lines.len() && (is_blank(lines[i]) || !text::starts_with(
                        lines[i],
                        from,
                    )) ==> #[trigger] moved[i] == lines[i]
            },
{
    let lines = text::pieces(s, '\n');
    lemma_is_indent(lines[0], from);
    let mv = |l: Seq<char>| moved_line(l, from, to);
    let moved = lines.map_values(mv);
    reveal_strlit("\n");
    assert("\n"@ =~= seq!['\n']);
    assert(reindented(s, to) == text::joined(moved, seq!['\n']));
    assert forall|i: int| 0 <= i < lines.len() implies (text::trimmed(#[trigger] lines[i]).len()
        == 0) == is_blank(lines[i]) by {
        law_blank_text_trims_to_nothing(lines[i]);
    }
    assert forall|i: int, rest: Seq<char>|
        #![trigger moved[i], from + rest]
        0 <= i < lines.len() && lines[i] == from + rest && !is_blank(lines[i]) implies moved[i]
        == to + rest by {
        law_blank_text_trims_to_nothing(lines[i]);
        assert(lines[i].subrange(0, from.len() as int) =~= from);
        assert(lines[i].skip(from.len() as int) =~= rest);
    }
    assert forall|i: int|
        0 <= i < lines.len() && (is_blank(lines[i]) || !text::starts_with(
            lines[i],
            from,
        )) implies #[trigger] moved[i] == lines[i] by {
        law_blank_text_trims_to_nothing(lines[i]);
    }
}

/// Lines that stand in one place of the file apart from the white space they
/// begin with are replaced there, by the new text moved onto the indentation of
/// the file. All other lines stay.
pub proof fn law_wrong_indentation_is_forgiven(
    lines: Seq<Seq<char>>,
    old: Seq<char>,
    new: Seq<char>,
    at: int,
    indent: Seq<char>,
    replace_all: bool,
)
    requires
        lines.len() > 0,
        forall|i: int| 0 <= i < lines.len() ==> !(#[trigger] lines[i]).contains('\n'),
        !text::contains(text::joined(lines, seq!['\n']), old),
        unnumbered_text(old) is None,
        exists|i: int|
            0 <= i < text::pieces(old, '\n').len() && !is_blank(#[trigger] text::pieces(old, '\n')[i]),
        sole_block(lines, text::pieces(old, '\n'), at),
        is_indent(lines[at], indent),
    ensures
        ({
            let block = text::pieces(old, '\n');
            &&& planned(text::joined(lines, seq!['\n']), old, new, replace_all) matches Ok(p)
            &&& p.matches == 1
            &&& p.recovery == Some(Recovery::Indentation)
            &&& p.updated == text::joined(
                lines.take(at) + seq![reindented(new, indent)] + lines.skip(at + block.len()),
                seq!['\n'],
            )
        }),
{
    let nl = seq!['\n'];
    let content = text::joined(lines, nl);
    let block = text::pieces(old, '\n');
    text::lemma_pieces_joined(lines, '\n');
    text::lemma_pieces_nonempty(old, '\n');
    let i = choose|i: int| 0 <= i < block.len() && !is_blank(#[trigger] block[i]);
    law_blank_text_trims_to_nothing(block[i]);
    let chosen = choose|a: int| sole_block(lines, block, a);
    assert(block_at(lines, block, chosen));
    assert(chosen == at);
    let end = at + block.len() - 1;
    let from = line_start(lines, at);
    let to = line_start(lines, end) + lines[end].len();
    assert(loose_range(content, old) == Some((from, to)));
    lemma_line_starts(lines, at);
    lemma_line_ends(lines, end);
    let first = content.subrange(from, to);
    lemma_first_line(lines, at, end, indent);
    lemma_is_indent(first, indent);
    let moved = reindented(new, indent);
    let head = lines.take(at);
    let tail = lines.skip(at + block.len());
    let mid = seq![moved];
    assert(lines.skip(end + 1) =~= tail);
    if at > 0 && tail.len() > 0 {
        law_joining(head, mid + tail, nl);
        law_joining(mid, tail, nl);
        assert(head + (mid + tail) =~= head + mid + tail);
    } else if at > 0 {
        law_joining(head, mid, nl);
        assert(head + mid + tail =~= head + mid);
    } else if tail.len() > 0 {
        law_joining(mid, tail, nl);
        assert(head + mid + tail =~= mid + tail);
    } else {
        assert(head + mid + tail =~= mid);
    }
    let result = text::joined(head + mid + tail, nl);
    assert(content.take(from) + moved + content.skip(to) =~= result);
}

proof fn lemma_line_starts(lines: Seq<Seq<char>>, at: int)
    requires
        0 <= at < lines.len(),
    ensures
        ({
            let content = text::joined(lines, seq!['\n']);
            let from = line_start(lines, at);
            &&& 0 <= from <= content.len()
            &&& content.take(from) == if at == 0 {
                Seq::<char>::empty()
            } else {
                text::joined(lines.take(at), seq!['\n']).push('\n')
            }
            &&& content.skip(from) == text::joined(lines.skip(at), seq!['\n'])
        }),
    decreases at,
{
    let nl = seq!['\n'];
    let content = text::joined(lines, nl);
    let from = line_start(lines, at);
    if at == 0 {
        assert(lines.skip(0) =~= lines);
        assert(content.skip(0) =~= content);
        assert(content.take(0) =~= Seq::<char>::empty());
    } else {
        lemma_line_starts(lines, at - 1);
        let head = lines.take(at);
        let tail = lines.skip(at);
        assert(lines =~= head + tail);
        law_joining(head, tail, nl);
        let f = line_start(lines, at - 1);
        let one = seq![lines[at - 1]];
        assert(head =~= lines.take(at - 1) + one);
        if at > 1 {
            law_joining(lines.take(at - 1), one, nl);
        } else {
            assert(head =~= one);
        }
        assert(text::joined(one, nl) == lines[at - 1]);
        assert(content.take(f).len() == f);
        assert(from == text::joined(head, nl).len() + 1);
        assert(content.take(from) =~= text::joined(head, nl).push('\n'));
        assert(content.skip(from) =~= text::joined(tail, nl));
    }
}

proof fn lemma_line_ends(lines: Seq<Seq<char>>, end: int)
    requires
        0 <= end < lines.len(),
    ensures
        ({
            let content = text::joined(lines, seq!['\n']);
            let to = line_start(lines, end) + lines[end].len();
            &&& 0 <= to <= content.len()
            &&& content.skip(to) == if end + 1 == lines.len() {
                Seq::<char>::empty()
            } else {
                seq!['\n'] + text::joined(lines.skip(end + 1), seq!['\n'])
            }
        }),
{
    let nl = seq!['\n'];
    let content = text::joined(lines, nl);
    lemma_line_starts(lines, end);
    let from = line_start(lines, end);
    let to = from + lines[end].len();
    let rest = lines.skip(end);
    let one = seq![lines[end]];
    let tail = lines.skip(end + 1);
    assert(rest =~= one + tail);
    let n = lines[end].len() as int;
    if tail.len() > 0 {
        law_joining(one, tail, nl);
        assert(content.skip(from).len() >= n);
        assert(content.skip(to) =~= content.skip(from).skip(n));
        assert(content.skip(to) =~= nl + text::joined(tail, nl));
    } else {
        assert(rest =~= one);
        assert(text::joined(one, nl) == lines[end]);
        assert(content.skip(from).len() == n);
        assert(content.skip(to) =~= Seq::<char>::empty());
    }
}

proof fn lemma_first_line(lines: Seq<Seq<char>>, at: int, end: int, indent: Seq<char>)
    requires
        0 <= at <= end < lines.len(),
        is_indent(lines[at], indent),
    ensures
        ({
            let content = text::joined(lines, seq!['\n']);
            let from = line_start(lines, at);
            let to = line_start(lines, end) + lines[end].len();
            is_indent(content.subrange(from, to), indent)
        }),
{
    let nl = seq!['\n'];
    let content = text::joined(lines, nl);
    let from = line_start(lines, at);
    let to = line_start(lines, end) + lines[end].len();
    lemma_line_starts(lines, at);
    lemma_line_ends(lines, end);
    lemma_starts_grow(lines, at, end);
    let first = content.subrange(from, to);
    let rest = choose|rest: Seq<char>|
        lines[at] == #[trigger] (indent + rest) && (rest.len() > 0 ==> rest[0] != ' ' && rest[0]
            != '\t');
    let one = seq![lines[at]];
    let tail = lines.skip(at + 1);
    assert(lines.skip(at) =~= one + tail);
    if tail.len() > 0 {
        law_joining(one, tail, nl);
    } else {
        assert(lines.skip(at) =~= one);
    }
    let n = lines[at].len() as int;
    assert(content.skip(from).take(n) =~= lines[at]);
    assert(to - from >= n);
    assert(first.take(n) =~= lines[at]);
    if at < end {
        assert(content.skip(from)[n] == '\n');
        assert(to - from > n);
        assert(first[n] == '\n');
    }
    let more = rest + first.skip(n);
    assert(first =~= indent + more);
    if more.len() > 0 && rest.len() == 0 {
        assert(more[0] == first[n]);
    }
}

proof fn lemma_starts_grow(lines: Seq<Seq<char>>, i: int, j: int)
    requires
        0 <= i <= j < lines.len(),
    ensures
        line_start(lines, i) + (if i < j {
            lines[i].len() + 1
        } else {
            0
        }) <= line_start(lines, j),
    decreases j,
{
    if i < j {
        lemma_starts_grow(lines, i, j - 1);
    }
}

} // verus!
