//! How an edit is applied to a file's text.
//!
//! Models get the text to replace slightly wrong while their intent stays
//! unambiguous. The ladder here recovers from two such slips; both rungs require
//! a unique match.
use vstd::prelude::*;
use vstd::string::StringExecFns;
use crate::text;
use crate::util::LINE_NUMBER_SEPARATOR;

verus! {

// ---------------------------------------------------------------------------
// Line-number prefixes
// ---------------------------------------------------------------------------

/// `s` without the spaces it begins with.
pub open spec fn without_spaces(s: Seq<char>) -> Seq<char>
    decreases s.len(),
{
    if s.len() > 0 && s[0] == ' ' {
        without_spaces(s.skip(1))
    } else {
        s
    }
}

/// The number of digits that `s` begins with.
pub open spec fn leading_digits(s: Seq<char>) -> nat
    decreases s.len(),
{
    if s.len() > 0 && text::is_digit(s[0]) {
        1 + leading_digits(s.skip(1))
    } else {
        0
    }
}

/// A line without its prefix of spaces, a number and a separator or a tab.
pub open spec fn unnumbered(line: Seq<char>) -> Option<Seq<char>> {
    let t = without_spaces(line);
    let n = leading_digits(t) as int;
    if n == 0 || n >= t.len() || (t[n] != LINE_NUMBER_SEPARATOR && t[n] != '\t') {
        None
    } else {
        Some(t.skip(n + 1))
    }
}

/// The lines without their prefixes, where each has one; the last may be empty.
pub open spec fn unnumbered_lines(lines: Seq<Seq<char>>, last: int) -> Option<Seq<Seq<char>>>
    decreases lines.len(),
{
    if lines.len() == 0 {
        Some(Seq::empty())
    } else {
        match unnumbered_lines(lines.drop_last(), last) {
            None => None,
            Some(before) => if lines.last().len() == 0 && lines.len() - 1 == last {
                Some(before.push(Seq::empty()))
            } else {
                match unnumbered(lines.last()) {
                    Some(l) => Some(before.push(l)),
                    None => None,
                }
            },
        }
    }
}

/// A text without the prefixes of its lines, where every line has one.
pub open spec fn unnumbered_text(s: Seq<char>) -> Option<Seq<char>> {
    let lines = text::pieces(s, '\n');
    match unnumbered_lines(lines, lines.len() - 1) {
        Some(l) => Some(text::joined(l, "\n"@)),
        None => None,
    }
}

/// No line without a prefix can be repaired by what follows it.
proof fn lemma_unnumbered_prefix(lines: Seq<Seq<char>>, last: int, i: int)
    requires
        0 <= i <= lines.len(),
        unnumbered_lines(lines.take(i), last) is None,
    ensures
        unnumbered_lines(lines, last) is None,
    decreases lines.len(),
{
    if i < lines.len() {
        assert(lines.drop_last().take(i) =~= lines.take(i));
        lemma_unnumbered_prefix(lines.drop_last(), last, i);
    } else {
        assert(lines.take(i) =~= lines);
    }
}

fn strip_line_number(line: &str) -> (r: Option<String>)
    ensures
        text::opt_view(r) == unnumbered(line@),
{
    let v = text::chars_of(line);
    let mut a: usize = 0;
    assert(v@.skip(0) =~= v@);
    while a < v.len() && v[a] == ' '
        invariant
            a <= v.len(),
            v@ == line@,
            without_spaces(v@.skip(a as int)) == without_spaces(line@),
        decreases v.len() - a,
    {
        assert(v@.skip(a as int).skip(1) =~= v@.skip(a + 1));
        a += 1;
    }
    let ghost t = without_spaces(line@);
    assert(t == v@.skip(a as int));
    let mut b: usize = a;
    assert(t.skip(0) =~= t);
    while b < v.len() && '0' <= v[b] && v[b] <= '9'
        invariant
            a <= b <= v.len(),
            t == v@.skip(a as int),
            leading_digits(t) == (b - a) + leading_digits(t.skip(b - a)),
        decreases v.len() - b,
    {
        assert(t.skip(b - a)[0] == v@[b as int]);
        assert(t.skip(b - a).skip(1) =~= t.skip(b - a + 1));
        b += 1;
    }
    proof {
        if b < v.len() {
            assert(t.skip(b - a)[0] == v@[b as int]);
        }
        assert(leading_digits(t) == b - a);
    }
    if b == a || b >= v.len() {
        return None;
    }
    assert(t[b - a] == v@[b as int]);
    if v[b] != LINE_NUMBER_SEPARATOR && v[b] != '\t' {
        return None;
    }
    assert(t.skip(b - a + 1) =~= v@.subrange(b + 1, v@.len() as int));
    Some(text::string_between(&v, b + 1, v.len()))
}

/// Strip a leading `<spaces><digits><separator>` from every line, if every line
/// has one.
///
/// Returns `None` when the text is not uniformly prefixed, so ordinary code that
/// merely happens to start with a number is never mangled. A tab is accepted as
/// a separator too.
pub fn strip_line_number_prefixes(text: &str) -> (r: Option<String>)
    ensures
        text::opt_view(r) == unnumbered_text(text@),
{
    let lines = text::split(text, '\n');
    let ghost all = text::pieces(text@, '\n');
    let ghost last = all.len() - 1;
    let mut out: Vec<String> = Vec::new();
    let mut i: usize = 0;
    assert(text::views(out@) =~= Seq::<Seq<char>>::empty());
    while i < lines.len()
        invariant
            i <= lines.len(),
            all == text::views(lines@),
            all == text::pieces(text@, '\n'),
            last == all.len() - 1,
            unnumbered_lines(all.take(i as int), last) == Some(text::views(out@)),
        decreases lines.len() - i,
    {
        proof {
            assert(all.take(i + 1).drop_last() =~= all.take(i as int));
            assert(all[i as int] == lines@[i as int]@);
        }
        let ghost before = text::views(out@);
        if lines[i].as_str().is_empty() && i == lines.len() - 1 {
            out.push(String::new());
            assert(text::views(out@) =~= before.push(Seq::empty()));
        } else {
            match strip_line_number(&lines[i]) {
                Some(l) => {
                    let ghost lv = l@;
                    out.push(l);
                    assert(text::views(out@) =~= before.push(lv));
                },
                None => {
                    proof {
                        lemma_unnumbered_prefix(all, last, i + 1);
                    }
                    return None;
                },
            }
        }
        i += 1;
    }
    assert(all.take(all.len() as int) =~= all);
    Some(text::join(&out, "\n"))
}

// ---------------------------------------------------------------------------
// Indentation
// ---------------------------------------------------------------------------

/// The number of spaces and tabs that `s` begins with.
pub open spec fn indent_len(s: Seq<char>) -> nat
    decreases s.len(),
{
    if s.len() > 0 && (s[0] == ' ' || s[0] == '\t') {
        1 + indent_len(s.skip(1))
    } else {
        0
    }
}

/// The spaces and tabs that `s` begins with.
pub open spec fn indent_of(s: Seq<char>) -> Seq<char> {
    s.take(indent_len(s) as int)
}

/// One line moved from the indentation `from` to `to`. Blank lines, and lines
/// that do not begin with `from`, stay as they are.
pub open spec fn moved_line(line: Seq<char>, from: Seq<char>, to: Seq<char>) -> Seq<char> {
    if text::trimmed(line).len() == 0 {
        line
    } else {
        match text::stripped_prefix(line, from) {
            Some(rest) => to + rest,
            None => line,
        }
    }
}

/// A text moved so that its first line carries `indent`.
pub open spec fn reindented(s: Seq<char>, indent: Seq<char>) -> Seq<char> {
    let lines = text::pieces(s, '\n');
    let from = indent_of(lines[0]);
    text::joined(lines.map_values(|l: Seq<char>| moved_line(l, from, indent)), "\n"@)
}

fn leading_indent(s: &str) -> (r: String)
    ensures
        r@ == indent_of(s@),
{
    let v = text::chars_of(s);
    let mut i: usize = 0;
    assert(v@.skip(0) =~= v@);
    while i < v.len() && (v[i] == ' ' || v[i] == '\t')
        invariant
            i <= v.len(),
            v@ == s@,
            indent_len(s@) == i + indent_len(v@.skip(i as int)),
        decreases v.len() - i,
    {
        assert(v@.skip(i as int)[0] == v@[i as int]);
        assert(v@.skip(i as int).skip(1) =~= v@.skip(i + 1));
        i += 1;
    }
    proof {
        if i < v.len() {
            assert(v@.skip(i as int)[0] == v@[i as int]);
        }
    }
    text::string_between(&v, 0, i)
}

/// Re-indent `text` so its first line carries `indent`, shifting the rest by
/// the same amount relative to their own original indentation.
pub fn reindent(text: &str, indent: &str) -> (r: String)
    ensures
        r@ == reindented(text@, indent@),
{
    let lines = text::split(text, '\n');
    let ghost all = text::pieces(text@, '\n');
    let from = leading_indent(&lines[0]);
    assert(all[0] == lines@[0]@);
    let ghost mv = |l: Seq<char>| moved_line(l, from@, indent@);
    let ghost moved = all.map_values(mv);
    let mut out: Vec<String> = Vec::new();
    let mut i: usize = 0;
    while i < lines.len()
        invariant
            i <= lines.len(),
            all == text::views(lines@),
            mv == (|l: Seq<char>| moved_line(l, from@, indent@)),
            moved == all.map_values(mv),
            text::views(out@) == moved.take(i as int),
        decreases lines.len() - i,
    {
        let line = &lines[i];
        assert(all[i as int] == line@);
        let shifted = if text::trim(line).as_str().is_empty() {
            line.clone()
        } else {
            match text::strip_prefix(line, &from) {
                Some(rest) => {
                    let mut s = indent.to_owned();
                    s.append(&rest);
                    s
                },
                None => line.clone(),
            }
        };
        let ghost before = text::views(out@);
        let ghost sv = shifted@;
        assert(moved[i as int] == sv);
        out.push(shifted);
        assert(text::views(out@) =~= before.push(sv));
        i += 1;
        assert(text::views(out@) =~= moved.take(i as int));
    }
    assert(moved.take(moved.len() as int) =~= moved);
    text::join(&out, "\n")
}

/// Where line `i` begins in the text of the lines.
pub open spec fn line_start(lines: Seq<Seq<char>>, i: int) -> int
    decreases i,
{
    if i <= 0 {
        0
    } else {
        line_start(lines, i - 1) + lines[i - 1].len() + 1
    }
}

/// Whether the lines of `needle` stand at line `at`, apart from the white space
/// they begin with.
pub open spec fn block_at(lines: Seq<Seq<char>>, needle: Seq<Seq<char>>, at: int) -> bool {
    &&& 0 <= at
    &&& at + needle.len() <= lines.len()
    &&& forall|k: int|
        0 <= k < needle.len() ==> text::trimmed_start(#[trigger] lines[at + k]) == text::trimmed_start(
            needle[k],
        )
}

/// Whether every line is blank.
pub open spec fn all_blank(lines: Seq<Seq<char>>) -> bool {
    forall|i: int| 0 <= i < lines.len() ==> text::trimmed(#[trigger] lines[i]).len() == 0
}

/// Whether `at` is the only line where the lines of `needle` stand.
pub open spec fn sole_block(lines: Seq<Seq<char>>, needle: Seq<Seq<char>>, at: int) -> bool {
    &&& block_at(lines, needle, at)
    &&& forall|other: int| #[trigger] block_at(lines, needle, other) ==> other == at
}

/// The place of `needle` in `haystack`, apart from white space at the ends of the
/// lines: from the start of its first line to the end of its last. None where
/// its lines stand nowhere or in more than one place, or where it is blank.
pub open spec fn loose_range(haystack: Seq<char>, needle: Seq<char>) -> Option<(int, int)> {
    let lines = text::pieces(haystack, '\n');
    let block = text::pieces(needle, '\n');
    if !all_blank(block) && exists|at: int| sole_block(lines, block, at) {
        let at = choose|at: int| sole_block(lines, block, at);
        let end = at + block.len() - 1;
        Some((line_start(lines, at), line_start(lines, end) + lines[end].len()))
    } else {
        None
    }
}

proof fn lemma_line_start_bound(lines: Seq<Seq<char>>, i: int)
    requires
        0 <= i < lines.len(),
    ensures
        0 <= line_start(lines, i),
        line_start(lines, i) + lines[i].len() <= text::joined(lines, seq!['\n']).len(),
    decreases lines.len(),
{
    lemma_line_start_nonneg(lines, i);
    if i == lines.len() - 1 {
        lemma_joined_len(lines);
    } else {
        lemma_line_start_bound(lines.drop_last(), i);
        lemma_line_start_prefix(lines, lines.drop_last(), i);
    }
}

proof fn lemma_line_start_nonneg(lines: Seq<Seq<char>>, i: int)
    ensures
        0 <= line_start(lines, i),
    decreases i,
{
    if i > 0 {
        lemma_line_start_nonneg(lines, i - 1);
    }
}

proof fn lemma_line_start_prefix(a: Seq<Seq<char>>, b: Seq<Seq<char>>, i: int)
    requires
        i <= a.len(),
        i <= b.len(),
        forall|k: int| 0 <= k < i ==> #[trigger] a[k] == b[k],
    ensures
        line_start(a, i) == line_start(b, i),
    decreases i,
{
    if i > 0 {
        assert(a[i - 1] == b[i - 1]);
        lemma_line_start_prefix(a, b, i - 1);
    }
}

proof fn lemma_joined_len(lines: Seq<Seq<char>>)
    requires
        lines.len() > 0,
    ensures
        text::joined(lines, seq!['\n']).len() == line_start(lines, lines.len() - 1)
            + lines.last().len(),
    decreases lines.len(),
{
    if lines.len() > 1 {
        let front = lines.drop_last();
        lemma_joined_len(front);
        lemma_line_start_prefix(lines, front, front.len() - 1);
        assert(front.last() == lines[lines.len() - 2]);
    } else {
        assert(line_start(lines, 0) == 0);
    }
}

/// Joining the pieces of a text gives the text.
pub proof fn lemma_joined_pieces(s: Seq<char>, c: char)
    ensures
        text::joined(text::pieces(s, c), seq![c]) == s,
    decreases s.len(),
{
    let p = text::pieces(s, c);
    if s.len() == 0 {
        assert(text::joined(p, seq![c]) =~= s);
    } else {
        let t = s.drop_last();
        let q = text::pieces(t, c);
        lemma_joined_pieces(t, c);
        text::lemma_pieces_nonempty(t, c);
        if s.last() == c {
            assert(p.drop_last() =~= q);
            assert(text::joined(p, seq![c]) =~= t.push(c));
        } else {
            assert(p.drop_last() =~= q.drop_last());
            if p.len() == 1 {
                assert(p[0] =~= q[0].push(s.last()));
                assert(text::joined(q, seq![c]) == q[0]);
            } else {
                assert(text::joined(p, seq![c]) =~= text::joined(q, seq![c]).push(s.last()));
            }
        }
        assert(t.push(s.last()) =~= s);
    }
}

fn is_block_at(
    lines: &Vec<String>,
    needle: &Vec<String>,
    at: usize,
) -> (r: bool)
    requires
        at + needle.len() <= lines.len(),
    ensures
        r == block_at(text::views(lines@), text::views(needle@), at as int),
{
    let ghost l = text::views(lines@);
    let ghost n = text::views(needle@);
    let mut k: usize = 0;
    while k < needle.len()
        invariant
            k <= needle.len(),
            at + needle.len() <= lines.len(),
            l == text::views(lines@),
            n == text::views(needle@),
            forall|j: int|
                0 <= j < k ==> text::trimmed_start(#[trigger] l[at + j]) == text::trimmed_start(n[j]),
        decreases needle.len() - k,
    {
        assert(l[at + k] == lines@[at + k]@);
        assert(n[k as int] == needle@[k as int]@);
        if !text::same(&text::trim_start(&lines[at + k]), &text::trim_start(&needle[k])) {
            return false;
        }
        k += 1;
    }
    true
}

fn every_line_blank(lines: &Vec<String>) -> (r: bool)
    ensures
        r == all_blank(text::views(lines@)),
{
    let ghost l = text::views(lines@);
    let mut i: usize = 0;
    while i < lines.len()
        invariant
            i <= lines.len(),
            l == text::views(lines@),
            forall|k: int| 0 <= k < i ==> text::trimmed(#[trigger] l[k]).len() == 0,
        decreases lines.len() - i,
    {
        assert(l[i as int] == lines@[i as int]@);
        if !text::trim(&lines[i]).as_str().is_empty() {
            return false;
        }
        i += 1;
    }
    true
}

/// Where a line begins, in characters.
fn start_of_line(lines: &Vec<String>, at: usize, total: usize) -> (r: usize)
    requires
        at < lines.len(),
        text::joined(text::views(lines@), seq!['\n']).len() <= total,
    ensures
        r == line_start(text::views(lines@), at as int),
        r + lines@[at as int]@.len() <= total,
{
    let ghost l = text::views(lines@);
    let mut n: usize = 0;
    let mut i: usize = 0;
    while i < at
        invariant
            i <= at < lines.len(),
            l == text::views(lines@),
            text::joined(l, seq!['\n']).len() <= total,
            n == line_start(l, i as int),
        decreases at - i,
    {
        proof {
            lemma_line_start_bound(l, i + 1);
            assert(l[i as int] == lines@[i as int]@);
        }
        n = n + text::chars_of(&lines[i]).len() + 1;
        i += 1;
    }
    proof {
        lemma_line_start_bound(l, at as int);
        assert(l[at as int] == lines@[at as int]@);
    }
    n
}

/// Locate `needle` in `haystack` ignoring each line's leading white space.
///
/// Returns the range, in characters, of the *actual* text in `haystack`, so the
/// caller replaces real file content rather than an approximation of it. A match
/// is accepted only when it is **unique**.
pub fn find_ignoring_indentation(haystack: &str, needle: &str) -> (r: Option<(usize, usize)>)
    ensures
        loose_range(haystack@, needle@) == (match r {
            Some((a, b)) => Some((a as int, b as int)),
            None => None,
        }),
        r matches Some((a, b)) ==> a <= b <= haystack@.len(),
{
    let block = text::split(needle, '\n');
    let lines = text::split(haystack, '\n');
    let ghost b = text::pieces(needle@, '\n');
    let ghost l = text::pieces(haystack@, '\n');
    if every_line_blank(&block) {
        return None;
    }
    if block.len() > lines.len() {
        assert(forall|at: int| !#[trigger] sole_block(l, b, at));
        return None;
    }
    let mut found: Option<usize> = None;
    let mut at: usize = 0;
    let last: usize = lines.len() - block.len();
    while at <= last
        invariant
            l == text::views(lines@),
            b == text::views(block@),
            b == text::pieces(needle@, '\n'),
            l == text::pieces(haystack@, '\n'),
            !all_blank(b),
            1 <= block.len(),
            block.len() <= lines.len(),
            last == lines.len() - block.len(),
            at <= last + 1,
            match found {
                Some(f) => f < at && block_at(l, b, f as int) && forall|o: int|
                    0 <= o < at && #[trigger] block_at(l, b, o) ==> o == f,
                None => forall|o: int| 0 <= o < at ==> !#[trigger] block_at(l, b, o),
            },
        decreases last + 1 - at,
    {
        if is_block_at(&lines, &block, at) {
            if found.is_some() {
                assert(block_at(l, b, found->0 as int) && block_at(l, b, at as int));
                assert(forall|o: int| !#[trigger] sole_block(l, b, o));
                return None;
            }
            found = Some(at);
        }
        at += 1;
    }
    match found {
        None => {
            assert(forall|o: int| !#[trigger] block_at(l, b, o));
            assert(forall|o: int| !#[trigger] sole_block(l, b, o));
            None
        },
        Some(f) => {
            let total: usize = text::chars_of(haystack).len();
            proof {
                lemma_joined_pieces(haystack@, '\n');
            }
            let from: usize = start_of_line(&lines, f, total);
            let end_line: usize = f + (block.len() - 1);
            let end_start: usize = start_of_line(&lines, end_line, total);
            let end_len: usize = text::chars_of(&lines[end_line]).len();
            proof {
                assert(l[end_line as int] == lines@[end_line as int]@);
                lemma_line_start_grows(l, f as int, end_line as int);
                assert(block_at(l, b, f as int));
                assert(forall|other: int| #[trigger] block_at(l, b, other) ==> other == f);
                assert(sole_block(l, b, f as int));
            }
            Some((from, end_start + end_len))
        },
    }
}

proof fn lemma_line_start_grows(lines: Seq<Seq<char>>, i: int, j: int)
    requires
        0 <= i <= j,
    ensures
        line_start(lines, i) <= line_start(lines, j),
    decreases j,
{
    if i < j {
        lemma_line_start_grows(lines, i, j - 1);
    }
}

// ---------------------------------------------------------------------------
// The edit
// ---------------------------------------------------------------------------

/// How often `pat` occurs in `s`, without overlap.
pub open spec fn match_count(s: Seq<char>, pat: Seq<char>) -> nat {
    if pat.len() == 0 {
        s.len() + 1
    } else {
        text::occurrences(s, pat)
    }
}

/// How the text to replace was found although it was not quite right.
#[derive(Debug, Clone, Copy, PartialEq, Eq, Structural)]
pub enum Recovery {
    /// The display prefixes of a read were pasted back in.
    Prefixes,
    /// The indentation was wrong.
    Indentation,
}

/// Why an edit was refused.
#[derive(Debug, Clone, Copy, PartialEq, Eq, Structural)]
pub enum EditError {
    NotFound,
    /// The text stands this many times.
    Ambiguous(usize),
}

/// What an edit makes of a file.
#[derive(Debug)]
pub struct EditPlan {
    pub updated: String,
    pub matches: usize,
    pub recovery: Option<Recovery>,
}

/// What an edit makes of a file, as text.
pub struct PlanView {
    pub updated: Seq<char>,
    pub matches: nat,
    pub recovery: Option<Recovery>,
}

impl View for EditPlan {
    type V = PlanView;

    open spec fn view(&self) -> PlanView {
        PlanView {
            updated: self.updated@,
            matches: self.matches as nat,
            recovery: self.recovery,
        }
    }
}

/// The text to look for: the given one, or that without its line-number
/// prefixes where only the latter stands in the file.
pub open spec fn edit_target(content: Seq<char>, old: Seq<char>) -> (Seq<char>, Option<Recovery>) {
    if text::contains(content, old) {
        (old, None)
    } else {
        match unnumbered_text(old) {
            Some(stripped) => if text::contains(content, stripped) {
                (stripped, Some(Recovery::Prefixes))
            } else {
                (old, None)
            },
            None => (old, None),
        }
    }
}

/// The replacement of the characters `from..to` by a text moved onto the
/// indentation that stands there.
pub open spec fn range_replaced(
    content: Seq<char>,
    from: int,
    to: int,
    new: Seq<char>,
) -> Seq<char> {
    content.take(from) + reindented(new, indent_of(content.subrange(from, to))) + content.skip(to)
}

/// What an edit makes of a file, or why it is refused.
pub open spec fn planned(
    content: Seq<char>,
    old: Seq<char>,
    new: Seq<char>,
    replace_all: bool,
) -> Result<PlanView, EditError> {
    let (target, recovery) = edit_target(content, old);
    if text::contains(content, target) {
        let n = match_count(content, target);
        if n > 1 && (!replace_all || recovery is Some) {
            Err(EditError::Ambiguous(n as usize))
        } else {
            Ok(
                PlanView {
                    updated: if replace_all {
                        text::replaced_all(content, target, new)
                    } else {
                        text::replaced_first(content, target, new)
                    },
                    matches: n,
                    recovery,
                },
            )
        }
    } else {
        let candidate = match unnumbered_text(target) {
            Some(stripped) => stripped,
            None => target,
        };
        match loose_range(content, candidate) {
            None => Err(EditError::NotFound),
            Some((from, to)) => Ok(
                PlanView {
                    updated: range_replaced(content, from, to, new),
                    matches: 1,
                    recovery: Some(Recovery::Indentation),
                },
            ),
        }
    }
}

proof fn lemma_occurs_counts(s: Seq<char>, pat: Seq<char>)
    requires
        pat.len() > 0,
    ensures
        (text::occurrences(s, pat) > 0) == text::contains(s, pat),
    decreases s.len(),
{
    if s.len() < pat.len() {
        assert(!text::contains(s, pat));
    } else if text::starts_with(s, pat) {
        assert(text::occurs_at(s, pat, 0));
    } else {
        let t = s.skip(1);
        lemma_occurs_counts(t, pat);
        if text::contains(t, pat) {
            let i = choose|i: int| text::occurs_at(t, pat, i);
            assert(s.subrange(i + 1, i + 1 + pat.len()) =~= t.subrange(i, i + pat.len()));
            assert(text::occurs_at(s, pat, i + 1));
        }
        if text::contains(s, pat) {
            let i = choose|i: int| text::occurs_at(s, pat, i);
            assert(i > 0);
            assert(s.subrange(i, i + pat.len()) =~= t.subrange(i - 1, i - 1 + pat.len()));
            assert(text::occurs_at(t, pat, i - 1));
        }
    }
}

/// Work out what an edit makes of a file.
///
/// Ambiguity is an error, not a coin flip: replacing the wrong one of three
/// identical lines produces a subtle bug the model cannot see.
pub fn plan_edit(content: &str, old: &str, new: &str, replace_all: bool) -> (r: Result<
    EditPlan,
    EditError,
>)
    requires
        content@.len() < usize::MAX,
    ensures
        match r {
            Ok(p) => planned(content@, old@, new@, replace_all) == Ok::<PlanView, EditError>(p@),
            Err(e) => planned(content@, old@, new@, replace_all) == Err::<PlanView, EditError>(e),
        },
{
    let mut target = old.to_owned();
    let mut recovery: Option<Recovery> = None;
    if !text::has(content, old) {
        match strip_line_number_prefixes(old) {
            Some(stripped) => {
                if text::has(content, &stripped) {
                    target = stripped;
                    recovery = Some(Recovery::Prefixes);
                }
            },
            None => {},
        }
    }
    assert((target@, recovery) == edit_target(content@, old@));
    if text::has(content, &target) {
        let n: usize = if target.as_str().is_empty() {
            text::chars_of(content).len() + 1
        } else {
            text::count_of(content, &target)
        };
        assert(n == match_count(content@, target@));
        if n > 1 && (!replace_all || recovery.is_some()) {
            return Err(EditError::Ambiguous(n));
        }
        let updated = if replace_all {
            text::replace_all(content, &target, new)
        } else {
            text::replace_first(content, &target, new)
        };
        return Ok(EditPlan { updated, matches: n, recovery });
    }
    let candidate = match strip_line_number_prefixes(&target) {
        Some(stripped) => stripped,
        None => target,
    };
    match find_ignoring_indentation(content, &candidate) {
        None => Err(EditError::NotFound),
        Some((from, to)) => {
            let v = text::chars_of(content);
            let actual = text::string_between(&v, from, to);
            let shifted = reindent(new, &leading_indent(&actual));
            let mut updated = text::string_between(&v, 0, from);
            updated.append(&shifted);
            updated.append(&text::string_between(&v, to, v.len()));
            proof {
                assert(v@.subrange(0, from as int) =~= v@.take(from as int));
                assert(v@.subrange(to as int, v@.len() as int) =~= v@.skip(to as int));
            }
            Ok(EditPlan { updated, matches: 1, recovery: Some(Recovery::Indentation) })
        },
    }
}

// ---------------------------------------------------------------------------
// Laws
// ---------------------------------------------------------------------------

/// A text that stands more than once is never edited without `replace_all`.
pub proof fn law_ambiguity_is_refused(content: Seq<char>, old: Seq<char>, new: Seq<char>)
    requires
        text::contains(content, old),
        match_count(content, old) > 1,
    ensures
        planned(content, old, new, false) is Err,
{
}

/// A text that stands exactly once is replaced, and nothing else changes: what
/// precedes it and what follows it stays.
pub proof fn law_sole_match_is_replaced(content: Seq<char>, old: Seq<char>, new: Seq<char>)
    requires
        old.len() > 0,
        match_count(content, old) == 1,
    ensures
        exists|i: int|
            {
                &&& #[trigger] text::occurs_at(content, old, i)
                &&& planned(content, old, new, false) matches Ok(p)
                &&& p.updated == content.take(i) + new + content.skip(i + old.len())
                &&& p.matches == 1
                &&& p.recovery is None
            },
{
    lemma_occurs_counts(content, old);
    text::lemma_contains_is_found(content, old);
    text::lemma_found_from(content, old, 0);
    let i = text::found(content, old)->0;
    assert(text::occurs_at(content, old, i));
}

/// A refused edit is one whose text does not stand in the file, not even apart
/// from its indentation and prefixes, or stands there more than once.
pub proof fn law_refusal_is_explained(
    content: Seq<char>,
    old: Seq<char>,
    new: Seq<char>,
    replace_all: bool,
)
    requires
        planned(content, old, new, replace_all) is Err,
    ensures
        planned(content, old, new, replace_all)->Err_0 == EditError::NotFound ==> {
            &&& !text::contains(content, old)
            &&& loose_range(
                content,
                match unnumbered_text(old) {
                    Some(stripped) => stripped,
                    None => old,
                },
            ) is None
            &&& unnumbered_text(old) matches Some(stripped) ==> !text::contains(content, stripped)
        },
        planned(content, old, new, replace_all)->Err_0 != EditError::NotFound ==> match_count(
            content,
            edit_target(content, old).0,
        ) > 1,
{
}

/// A text that was not given exactly is replaced only where the match is
/// unique, so that an edit never picks one of several similar places.
pub proof fn law_recoveries_are_unique(
    content: Seq<char>,
    old: Seq<char>,
    new: Seq<char>,
    replace_all: bool,
)
    requires
        planned(content, old, new, replace_all) is Ok,
        planned(content, old, new, replace_all)->Ok_0.recovery is Some,
    ensures
        !text::contains(content, old),
        planned(content, old, new, replace_all)->Ok_0.matches == 1,
{
    let target = edit_target(content, old).0;
    if target.len() > 0 {
        lemma_occurs_counts(content, target);
    }
}

proof fn lemma_decimal_digits(n: nat)
    ensures
        text::all_digits(text::decimal(n)),
        text::decimal(n).len() > 0,
    decreases n,
{
    if n >= 10 {
        lemma_decimal_digits(n / 10);
        let d = text::decimal(n / 10);
        let r = text::decimal(n);
        assert forall|i: int| 0 <= i < r.len() implies text::is_digit(#[trigger] r[i]) by {
            if i < d.len() {
                assert(r[i] == d[i]);
            }
        }
    }
}

proof fn lemma_leading_digits_is(d: Seq<char>, rest: Seq<char>)
    requires
        text::all_digits(d),
        rest.len() == 0 || !text::is_digit(rest[0]),
    ensures
        leading_digits(d + rest) == d.len(),
    decreases d.len(),
{
    if d.len() == 0 {
        assert(d + rest =~= rest);
    } else {
        let t = d.skip(1);
        assert(text::all_digits(t)) by {
            assert forall|i: int| 0 <= i < t.len() implies text::is_digit(#[trigger] t[i]) by {
                assert(t[i] == d[i + 1]);
            }
        }
        lemma_leading_digits_is(t, rest);
        assert((d + rest).skip(1) =~= t + rest);
        assert(text::is_digit(d[0]));
    }
}

proof fn lemma_without_spaces(n: nat, rest: Seq<char>)
    requires
        rest.len() > 0,
        rest[0] != ' ',
    ensures
        without_spaces(Seq::new(n, |i: int| ' ') + rest) == rest,
    decreases n,
{
    let s = Seq::new(n, |i: int| ' ') + rest;
    if n > 0 {
        lemma_without_spaces((n - 1) as nat, rest);
        assert(s.skip(1) =~= Seq::new((n - 1) as nat, |i: int| ' ') + rest);
    } else {
        assert(s =~= rest);
    }
}

/// A numbered line is restored by taking its prefix away.
proof fn lemma_numbered_line(n: nat, sep: char, line: Seq<char>)
    requires
        sep == LINE_NUMBER_SEPARATOR || sep == '\t',
    ensures
        unnumbered(text::right_aligned(text::decimal(n), 6, ' ') + seq![sep] + line) == Some(line),
{
    let d = text::decimal(n);
    lemma_decimal_digits(n);
    let rest = seq![sep] + line;
    let full = text::right_aligned(d, 6, ' ') + seq![sep] + line;
    assert(text::is_digit(d[0]));
    let k = if d.len() >= 6 { 0nat } else { (6 - d.len()) as nat };
    assert(full =~= Seq::new(k, |i: int| ' ') + (d + rest));
    lemma_without_spaces(k, d + rest);
    lemma_leading_digits_is(d, rest);
    let t = d + rest;
    assert(t[d.len() as int] == sep);
    assert(t.skip(d.len() as int + 1) =~= line);
}

proof fn lemma_numbered_pieces(lines: Seq<Seq<char>>, start: nat, sep: char)
    requires
        sep == LINE_NUMBER_SEPARATOR || sep == '\t',
        forall|i: int| 0 <= i < lines.len() ==> !(#[trigger] lines[i]).contains('\n'),
    ensures
        ({
            let p = text::pieces(crate::util::numbered(lines, start, sep), '\n');
            &&& p.len() == lines.len() + 1
            &&& p.last().len() == 0
            &&& forall|i: int|
                0 <= i < lines.len() ==> unnumbered(#[trigger] p[i]) == Some(lines[i])
            &&& forall|i: int| 0 <= i < lines.len() ==> (#[trigger] p[i]).len() > 0
        }),
    decreases lines.len(),
{
    let whole = crate::util::numbered(lines, start, sep);
    if lines.len() > 0 {
        let front = lines.drop_last();
        assert forall|i: int| 0 <= i < front.len() implies !(#[trigger] front[i]).contains(
            '\n',
        ) by {
            assert(front[i] == lines[i]);
        }
        lemma_numbered_pieces(front, start, sep);
        let n = (start + lines.len() - 1) as nat;
        let pre = text::right_aligned(text::decimal(n), 6, ' ');
        let row = pre + seq![sep] + lines.last();
        lemma_numbered_line(n, sep, lines.last());
        let head = crate::util::numbered(front, start, sep);
        let q = text::pieces(head, '\n');
        // The row holds no line break, so it extends the last, empty piece.
        assert(!row.contains('\n')) by {
            lemma_decimal_digits(n);
            assert forall|i: int| 0 <= i < row.len() implies row[i] != '\n' by {
                if i < pre.len() {
                    let d = text::decimal(n);
                    if d.len() < 6 && i >= 6 - d.len() {
                        assert(pre[i] == d[i - (6 - d.len())]);
                        assert(text::is_digit(d[i - (6 - d.len())]));
                    } else if d.len() >= 6 {
                        assert(text::is_digit(d[i]));
                    }
                } else if i > pre.len() {
                    assert(row[i] == lines.last()[i - pre.len() - 1]);
                    assert(lines[lines.len() - 1].contains(lines.last()[i - pre.len() - 1]));
                }
            }
        }
        assert(whole =~= head + row.push('\n'));
        lemma_pieces_extend(head, row);
        let mid = text::pieces(head + row, '\n');
        assert(whole =~= (head + row).push('\n'));
        assert((head + row).push('\n').drop_last() =~= head + row);
        let p = text::pieces(whole, '\n');
        assert(p == mid.push(Seq::empty()));
        assert(q.last() + row =~= row);
        assert forall|i: int| 0 <= i < lines.len() implies unnumbered(#[trigger] p[i]) == Some(
            lines[i],
        ) && p[i].len() > 0 by {
            if i < front.len() {
                assert(p[i] == q[i]);
                assert(front[i] == lines[i]);
            } else {
                assert(p[i] == row);
            }
        }
    } else {
        assert(text::pieces(whole, '\n') =~= seq![Seq::<char>::empty()]);
    }
}

/// Text without a separator is added to the last piece.
proof fn lemma_pieces_extend(head: Seq<char>, row: Seq<char>)
    requires
        !row.contains('\n'),
    ensures
        ({
            let q = text::pieces(head, '\n');
            text::pieces(head + row, '\n') == q.drop_last().push(q.last() + row)
        }),
    decreases row.len(),
{
    let q = text::pieces(head, '\n');
    text::lemma_pieces_nonempty(head, '\n');
    if row.len() == 0 {
        assert(head + row =~= head);
        assert(q.last() + row =~= q.last());
        assert(q.drop_last().push(q.last()) =~= q);
    } else {
        let r = row.drop_last();
        assert(!r.contains('\n')) by {
            assert forall|i: int| 0 <= i < r.len() implies r[i] != '\n' by {
                assert(row[i] == r[i]);
                assert(row.contains(row[i]));
            }
        }
        lemma_pieces_extend(head, r);
        assert(row.contains(row.last()));
        assert((head + row).drop_last() =~= head + r);
        assert((q.last() + r).push(row.last()) =~= q.last() + row);
        let p = text::pieces(head + r, '\n');
        assert(p.drop_last() =~= q.drop_last());
        assert(text::pieces(head + row, '\n') =~= q.drop_last().push(q.last() + row));
    }
}

proof fn lemma_unnumbered_all(p: Seq<Seq<char>>, lines: Seq<Seq<char>>, last: int, k: int)
    requires
        p.len() == lines.len() + 1,
        last == lines.len(),
        0 <= k <= lines.len(),
        forall|i: int| 0 <= i < lines.len() ==> unnumbered(#[trigger] p[i]) == Some(lines[i]),
        forall|i: int| 0 <= i < lines.len() ==> (#[trigger] p[i]).len() > 0,
    ensures
        unnumbered_lines(p.take(k), last) == Some(lines.take(k)),
    decreases k,
{
    if k > 0 {
        lemma_unnumbered_all(p, lines, last, k - 1);
        assert(p.take(k).drop_last() =~= p.take(k - 1));
        assert(p.take(k).last() == p[k - 1]);
        assert(lines.take(k - 1).push(lines[k - 1]) =~= lines.take(k));
    } else {
        assert(lines.take(0) =~= Seq::<Seq<char>>::empty());
    }
}

/// What a read shows of some lines is turned back into those lines by taking the
/// prefixes away.
pub proof fn law_prefixes_undo_numbering(lines: Seq<Seq<char>>, start: nat, sep: char)
    requires
        sep == LINE_NUMBER_SEPARATOR || sep == '\t',
        forall|i: int| 0 <= i < lines.len() ==> !(#[trigger] lines[i]).contains('\n'),
    ensures
        unnumbered_text(crate::util::numbered(lines, start, sep)) == Some(
            text::joined(lines.push(Seq::empty()), "\n"@),
        ),
{
    lemma_numbered_pieces(lines, start, sep);
    let p = text::pieces(crate::util::numbered(lines, start, sep), '\n');
    let last = p.len() - 1;
    lemma_unnumbered_all(p, lines, last, lines.len() as int);
    assert(p.take(lines.len() as int) =~= p.drop_last());
    assert(lines.take(lines.len() as int) =~= lines);
}

} // verus!
