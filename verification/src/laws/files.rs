//! What reading, listing and cutting files show.
use vstd::prelude::*;
use crate::laws::paths::{
    from_root, law_below_a_directory, law_directories_hold_their_files, lead_down,
};
use crate::laws::text::{is_line, law_joining, law_lines_are_read_back};
use crate::matching::lowercase;
use crate::table::{lemma_precedes_total, lemma_precedes_transitive, precedes};
use crate::text;
use crate::tools::fs::{
    entry_inserted, entry_name, first_found, law_directories_come_first, list_body, listed_as_dir,
    listed_before, listing, read_body, read_limit, read_start, rebuilt, resolution, window,
    DirEntry, Probe,
};
use crate::tools::schema::counted;
use crate::util::{
    count_kind, duration_text, numbered, token_estimate, truncated, without_breaks, DiffKind,
    RawChange,
};

verus! {

// ---------------------------------------------------------------------------
// Cutting text
// ---------------------------------------------------------------------------

/// Text that is too long is cut to the longest beginning that fits, and what is
/// said behind it tells how many bytes are missing and how many there were.
pub proof fn law_long_text_keeps_its_beginning(s: Seq<char>, max: nat)
    ensures
        text::byte_count(s) <= max ==> truncated(s, max) == s,
        text::byte_count(s) > max ==> exists|k: int|
            {
                &&& 0 <= k < s.len()
                &&& text::byte_count(#[trigger] s.take(k)) <= max
                &&& text::byte_count(s.take(k + 1)) > max
                &&& truncated(s, max) == s.take(k) + "\n\n[truncated "@ + text::decimal(
                    (text::byte_count(s) - text::byte_count(s.take(k))) as nat,
                ) + " bytes of "@ + text::decimal(text::byte_count(s)) + " total]"@
            },
{
    if text::byte_count(s) > max {
        text::lemma_fitting(s, max);
        let k = text::fitting(s, max).len() as int;
        assert(s.take(s.len() as int) =~= s);
        assert(s.take(k) == text::fitting(s, max));
    }
}

/// Four bytes are a token, and what is left over is one too.
pub proof fn law_tokens_are_four_bytes(s: Seq<char>)
    ensures
        text::byte_count(s) <= 4 * token_estimate(s) < text::byte_count(s) + 4,
{
}

/// The number of bytes of a text is that of its parts, and an ASCII character is
/// one byte.
pub proof fn law_bytes_add_up(a: Seq<char>, b: Seq<char>)
    ensures
        text::byte_count(a + b) == text::byte_count(a) + text::byte_count(b),
        (forall|i: int| 0 <= i < a.len() ==> #[trigger] a[i] <= '\u{7f}') ==> text::byte_count(a)
            == a.len(),
    decreases b.len(), a.len(),
{
    if b.len() == 0 {
        assert(a + b =~= a);
    } else {
        law_bytes_add_up(a, b.drop_last());
        assert((a + b).drop_last() =~= a + b.drop_last());
    }
    if a.len() > 0 && b.len() == 0 {
        law_bytes_add_up(a.drop_last(), b);
        if forall|i: int| 0 <= i < a.len() ==> #[trigger] a[i] <= '\u{7f}' {
            assert forall|i: int| 0 <= i < a.len() - 1 implies #[trigger] a.drop_last()[i]
                <= '\u{7f}' by {
                assert(a.drop_last()[i] == a[i]);
            }
        }
    }
}

// ---------------------------------------------------------------------------
// Reading
// ---------------------------------------------------------------------------

/// Whether `rows` are lines with their numbers, from `start` on: each number at
/// the right of a field of six, then the bar, then the line.
pub open spec fn are_numbered(
    rows: Seq<Seq<char>>,
    lines: Seq<Seq<char>>,
    start: nat,
    sep: char,
) -> bool {
    &&& rows.len() == lines.len()
    &&& forall|k: int|
        0 <= k < lines.len() ==> #[trigger] rows[k] == text::right_aligned(
            text::decimal((start + k) as nat),
            6,
            ' ',
        ) + seq![sep] + lines[k] + seq!['\n']
}

proof fn lemma_numbered_rows(lines: Seq<Seq<char>>, start: nat, sep: char) -> (rows: Seq<Seq<char>>)
    ensures
        are_numbered(rows, lines, start, sep),
        numbered(lines, start, sep) == text::joined(rows, Seq::empty()),
    decreases lines.len(),
{
    if lines.len() == 0 {
        Seq::empty()
    } else {
        let before = lemma_numbered_rows(lines.drop_last(), start, sep);
        let last = text::right_aligned(
            text::decimal((start + lines.len() - 1) as nat),
            6,
            ' ',
        ) + seq![sep] + lines.last() + seq!['\n'];
        let rows = before.push(last);
        assert(text::joined(seq![last], Seq::empty()) == last);
        if before.len() > 0 {
            law_joining(before, seq![last], Seq::empty());
            assert(before + seq![last] =~= rows);
            assert(numbered(lines, start, sep) =~= text::joined(rows, Seq::empty()));
        } else {
            assert(rows =~= seq![last]);
            assert(numbered(lines, start, sep) =~= last);
        }
        rows
    }
}

/// A listing of lines shows each of them with its number.
pub proof fn law_lines_are_numbered(lines: Seq<Seq<char>>, start: nat, sep: char)
    ensures
        exists|rows: Seq<Seq<char>>|
            #[trigger] are_numbered(rows, lines, start, sep) && numbered(lines, start, sep)
                == text::joined(rows, Seq::empty()),
{
    let rows = lemma_numbered_rows(lines, start, sep);
    assert(are_numbered(rows, lines, start, sep));
}

/// A read shows the lines from the first that is asked for on, as many as are
/// asked for or as there are, each with its number in the file. Where more lines
/// follow, it says where to go on.
pub proof fn law_reads_show_the_lines_asked_for(
    path: Seq<char>,
    lines: Seq<Seq<char>>,
    start: nat,
    limit: nat,
)
    requires
        forall|i: int| 0 <= i < lines.len() ==> is_line(#[trigger] lines[i]),
        1 <= start <= lines.len(),
        limit > 0,
        ({
            let end = if start - 1 + limit < lines.len() {
                start - 1 + limit
            } else {
                lines.len() as int
            };
            lines[end - 1].len() > 0
        }),
    ensures
        ({
            let content = text::joined(lines.push(Seq::empty()), seq!['\n']);
            let end = if start - 1 + limit < lines.len() {
                start - 1 + limit
            } else {
                lines.len() as int
            };
            let shown = numbered(lines.subrange(start - 1, end), start, '│');
            &&& end < lines.len() ==> read_body(path, content, start, limit) == truncated(
                shown,
                262_144,
            ) + ("\n[showing lines "@ + text::decimal(start) + "-"@ + text::decimal(end as nat)
                + " of "@ + text::decimal(lines.len()) + "; call again with offset="@
                + text::decimal((end + 1) as nat) + " for more]\n"@)
            &&& end == lines.len() ==> read_body(path, content, start, limit) == truncated(
                shown,
                262_144,
            )
        }),
{
    let content = text::joined(lines.push(Seq::empty()), seq!['\n']);
    let end = if start - 1 + limit < lines.len() {
        start - 1 + limit
    } else {
        lines.len() as int
    };
    law_lines_are_read_back(lines);
    let slice = window(lines, start, limit);
    assert(slice =~= lines.subrange(start - 1, end));
    reveal_strlit("\n");
    assert("\n"@ =~= seq!['\n']);
    assert forall|i: int| 0 <= i < slice.len() implies is_line(#[trigger] slice[i]) by {
        assert(is_line(lines[start - 1 + i]));
    }
    law_lines_are_read_back(slice);
    assert(slice.last() == lines[end - 1]);
    assert(text::lines_of(content) == lines);
    let body = truncated(numbered(slice, start, '│'), 262_144);
    assert(body + Seq::<char>::empty() =~= body);
}

// ---------------------------------------------------------------------------
// Paths that tools may touch
// ---------------------------------------------------------------------------

/// A path below the workspace is where it says, where no link leads elsewhere:
/// the part of it that is there already is what it seems, and the rest is still
/// to be made.
pub proof fn law_plain_paths_are_accepted(
    workspace: Seq<Seq<char>>,
    ns: Seq<Seq<char>>,
    missing: int,
    probes: Seq<Probe>,
    found: String,
)
    requires
        lead_down(workspace),
        lead_down(ns),
        workspace.len() > 0,
        ns.len() > 0,
        0 <= missing <= ns.len(),
        missing < probes.len(),
        forall|i: int| 0 <= i < missing ==> (#[trigger] probes[i]) is Missing,
        probes[missing] == Probe::Found(Some(found)),
        found@ == from_root(workspace + ns.take(ns.len() - missing)),
    ensures
        resolution(from_root(workspace), text::joined(ns, seq!['/']), probes) == Ok::<
            Seq<char>,
            Seq<char>,
        >(from_root(workspace + ns)),
{
    let both = workspace + ns;
    lemma_lead_down_concat(workspace, ns);
    crate::laws::paths::law_paths_are_resolved(workspace, ns);
    crate::laws::paths::law_containment_goes_by_names(workspace, both);
    assert(both.take(workspace.len() as int) =~= workspace);
    let there = workspace + ns.take(ns.len() - missing);
    assert(lead_down(ns.take(ns.len() - missing))) by {
        assert forall|i: int| 0 <= i < ns.len() - missing implies {
            &&& (#[trigger] ns.take(ns.len() - missing)[i]).len() > 0
            &&& ns.take(ns.len() - missing)[i] != seq!['.']
            &&& ns.take(ns.len() - missing)[i] != seq!['.', '.']
            &&& !ns.take(ns.len() - missing)[i].contains('/')
        } by {
            assert(ns[i].len() > 0);
        }
    }
    lemma_lead_down_concat(workspace, ns.take(ns.len() - missing));
    crate::laws::paths::law_containment_goes_by_names(workspace, there);
    assert(there.take(workspace.len() as int) =~= workspace);
    lemma_first_found(probes, missing, 0);
    lemma_rebuilt(workspace, ns, missing);
}

proof fn lemma_lead_down_concat(a: Seq<Seq<char>>, b: Seq<Seq<char>>)
    requires
        lead_down(a),
        lead_down(b),
    ensures
        lead_down(a + b),
{
    let both = a + b;
    assert forall|i: int| 0 <= i < both.len() implies {
        &&& (#[trigger] both[i]).len() > 0
        &&& both[i] != seq!['.']
        &&& both[i] != seq!['.', '.']
        &&& !both[i].contains('/')
    } by {
        if i < a.len() {
            assert(both[i] == a[i]);
        } else {
            assert(both[i] == b[i - a.len()]);
        }
    }
}

proof fn lemma_first_found(probes: Seq<Probe>, k: int, from: int)
    requires
        0 <= from <= k < probes.len(),
        forall|i: int| 0 <= i < k ==> (#[trigger] probes[i]) is Missing,
        probes[k] is Found,
    ensures
        first_found(probes, from) == Some(k),
    decreases k - from,
{
    if from < k {
        assert(probes[from] is Missing);
        lemma_first_found(probes, k, from + 1);
    }
}

proof fn lemma_rebuilt(workspace: Seq<Seq<char>>, ns: Seq<Seq<char>>, k: int)
    requires
        lead_down(workspace + ns),
        workspace.len() > 0,
        0 <= k <= ns.len(),
    ensures
        rebuilt(from_root(workspace + ns.take(ns.len() - k)), from_root(workspace + ns), k)
            == from_root(workspace + ns),
    decreases k,
{
    if k > 0 {
        let front = ns.drop_last();
        let dir = workspace + front;
        let name = ns.last();
        assert(dir.push(name) =~= workspace + ns);
        assert(lead_down(dir)) by {
            assert forall|i: int| 0 <= i < dir.len() implies {
                &&& (#[trigger] dir[i]).len() > 0
                &&& dir[i] != seq!['.']
                &&& dir[i] != seq!['.', '.']
                &&& !dir[i].contains('/')
            } by {
                assert((workspace + ns)[i] == dir[i]);
            }
        }
        law_directories_hold_their_files(dir, name);
        law_below_a_directory(dir, name);
        lemma_rebuilt(workspace, front, k - 1);
        assert(front.take(front.len() - (k - 1)) =~= ns.take(ns.len() - k));
    } else {
        assert(ns.take(ns.len() - k) =~= ns);
    }
}

// ---------------------------------------------------------------------------
// Listing
// ---------------------------------------------------------------------------

/// Whether no entry comes before one that it should follow.
pub open spec fn is_sorted(names: Seq<Seq<char>>) -> bool {
    forall|i: int, j: int|
        0 <= i < j < names.len() ==> !listed_before(#[trigger] names[j], #[trigger] names[i])
}

proof fn lemma_not_before(a: Seq<char>, b: Seq<char>, c: Seq<char>)
    requires
        !listed_before(b, a),
        !listed_before(c, b),
    ensures
        !listed_before(c, a),
{
    if listed_before(c, a) && listed_as_dir(a) == listed_as_dir(b) && listed_as_dir(b)
        == listed_as_dir(c) {
        let (x, y, z) = (lowercase(a), lowercase(b), lowercase(c));
        lemma_precedes_total(x, y);
        lemma_precedes_total(y, z);
        if x != y {
            lemma_precedes_transitive(z, x, y);
        }
    }
}

proof fn lemma_inserted_sorted(sorted: Seq<Seq<char>>, name: Seq<char>)
    requires
        is_sorted(sorted),
    ensures
        is_sorted(entry_inserted(sorted, name)),
        forall|k: int|
            0 <= k < entry_inserted(sorted, name).len() ==> (#[trigger] entry_inserted(
                sorted,
                name,
            )[k] == name || sorted.contains(entry_inserted(sorted, name)[k])),
    decreases sorted.len(),
{
    let r = entry_inserted(sorted, name);
    if sorted.len() == 0 || !listed_before(name, sorted.last()) {
        assert forall|i: int, j: int| 0 <= i < j < r.len() implies !listed_before(
            #[trigger] r[j],
            #[trigger] r[i],
        ) by {
            if j == sorted.len() && i < sorted.len() - 1 {
                assert(!listed_before(sorted[sorted.len() - 1], sorted[i]));
                lemma_not_before(sorted[i], sorted[sorted.len() - 1], name);
            } else if j < sorted.len() {
                assert(r[i] == sorted[i] && r[j] == sorted[j]);
            }
        }
        assert forall|k: int| 0 <= k < r.len() implies #[trigger] r[k] == name || sorted.contains(
            r[k],
        ) by {
            if k < sorted.len() {
                assert(sorted[k] == r[k]);
            }
        }
    } else {
        let front = sorted.drop_last();
        assert(is_sorted(front)) by {
            assert forall|i: int, j: int| 0 <= i < j < front.len() implies !listed_before(
                #[trigger] front[j],
                #[trigger] front[i],
            ) by {
                assert(front[i] == sorted[i] && front[j] == sorted[j]);
            }
        }
        lemma_inserted_sorted(front, name);
        let f = entry_inserted(front, name);
        let last = sorted.last();
        assert forall|i: int, j: int| 0 <= i < j < r.len() implies !listed_before(
            #[trigger] r[j],
            #[trigger] r[i],
        ) by {
            if j == f.len() {
                assert(f[i] == name || front.contains(f[i]));
                if f[i] == name {
                    lemma_antisymmetric(name, last);
                } else {
                    let k = choose|k: int| 0 <= k < front.len() && front[k] == f[i];
                    assert(sorted[k] == f[i]);
                    assert(!listed_before(sorted[sorted.len() - 1], sorted[k]));
                }
            } else {
                assert(r[i] == f[i] && r[j] == f[j]);
            }
        }
        assert forall|k: int| 0 <= k < r.len() implies #[trigger] r[k] == name || sorted.contains(
            r[k],
        ) by {
            if k < f.len() {
                assert(f[k] == name || front.contains(f[k]));
                if f[k] != name {
                    let m = choose|m: int| 0 <= m < front.len() && front[m] == f[k];
                    assert(sorted[m] == f[k]);
                }
            } else {
                assert(sorted[sorted.len() - 1] == r[k]);
            }
        }
    }
}

proof fn lemma_antisymmetric(a: Seq<char>, b: Seq<char>)
    requires
        listed_before(a, b),
    ensures
        !listed_before(b, a),
{
    lemma_precedes_total(lowercase(a), lowercase(b));
}

/// A listing has its directories first, and then its files, both in the order of
/// their names, whatever the case.
pub proof fn law_listings_are_in_order(names: Seq<Seq<char>>)
    ensures
        forall|i: int, j: int|
            0 <= i < j < listing(names).len() ==> {
                let a = #[trigger] listing(names)[i];
                let b = #[trigger] listing(names)[j];
                let a_dir = a.len() > 0 && a[a.len() - 1] == '/';
                let b_dir = b.len() > 0 && b[b.len() - 1] == '/';
                &&& b_dir ==> a_dir
                &&& a_dir == b_dir ==> !precedes(lowercase(b), lowercase(a))
            },
    decreases names.len(),
{
    lemma_listing_sorted(names);
    law_directories_come_first(names);
    let l = listing(names);
    assert forall|i: int, j: int| 0 <= i < j < l.len() implies {
        let a = #[trigger] l[i];
        let b = #[trigger] l[j];
        let a_dir = a.len() > 0 && a[a.len() - 1] == '/';
        let b_dir = b.len() > 0 && b[b.len() - 1] == '/';
        &&& b_dir ==> a_dir
        &&& a_dir == b_dir ==> !precedes(lowercase(b), lowercase(a))
    } by {
        assert(!listed_before(l[j], l[i]));
    }
}

proof fn lemma_listing_sorted(names: Seq<Seq<char>>)
    ensures
        is_sorted(listing(names)),
    decreases names.len(),
{
    if names.len() > 0 {
        lemma_listing_sorted(names.drop_last());
        lemma_inserted_sorted(listing(names.drop_last()), names.last());
    }
}

/// A directory is listed with a slash behind its name, a file without one, and
/// each on a line.
pub proof fn law_entries_are_listed(e: DirEntry, dir: Seq<char>, names: Seq<Seq<char>>)
    ensures
        e.is_dir ==> entry_name(e) == e.name@.push('/'),
        !e.is_dir ==> entry_name(e) == e.name@,
        names.len() > 0 ==> list_body(dir, names) == text::joined(
            names.push(Seq::empty()),
            seq!['\n'],
        ),
{
    reveal_strlit("/");
    reveal_strlit("\n");
    assert("/"@ =~= seq!['/']);
    assert("\n"@ =~= seq!['\n']);
    assert(e.name@ + "/"@ =~= e.name@.push('/'));
    if names.len() > 0 {
        let none: Seq<char> = Seq::empty();
        law_joining(names, seq![none], seq!['\n']);
        assert(names + seq![none] =~= names.push(none));
        assert(text::joined(seq![none], seq!['\n']) == none);
        assert(list_body(dir, names) =~= text::joined(names.push(none), seq!['\n']));
    }
}

// ---------------------------------------------------------------------------
// Counting
// ---------------------------------------------------------------------------

/// Changes are counted by their kind, each once.
pub proof fn law_changes_are_counted(a: Seq<RawChange>, b: Seq<RawChange>, kind: DiffKind)
    ensures
        count_kind(a + b, kind) == count_kind(a, kind) + count_kind(b, kind),
        a.len() == 1 ==> count_kind(a, kind) == if a[0].0 == kind {
            1nat
        } else {
            0
        },
    decreases b.len(),
{
    if a.len() == 1 {
        assert(a.drop_last() =~= Seq::<RawChange>::empty());
        assert(count_kind(a.drop_last(), kind) == 0);
    }
    if b.len() == 0 {
        assert(a + b =~= a);
    } else {
        law_changes_are_counted(a, b.drop_last(), kind);
        assert((a + b).drop_last() =~= a + b.drop_last());
    }
}

/// One thing is named in the singular, any other number of them in the plural.
pub proof fn law_counts_have_their_plural(n: nat, one: Seq<char>, many: Seq<char>)
    ensures
        n == 1 ==> counted(n, one, many) == text::decimal(1) + one,
        n != 1 ==> counted(n, one, many) == text::decimal(n) + many,
{
}

/// A line is shown without the line breaks behind it, and otherwise as it is.
pub proof fn law_breaks_are_not_shown(line: Seq<char>, breaks: Seq<char>)
    requires
        line.len() == 0 || line[line.len() - 1] != '\n',
        forall|i: int| 0 <= i < breaks.len() ==> #[trigger] breaks[i] == '\n',
    ensures
        without_breaks(line + breaks) == line,
    decreases breaks.len(),
{
    if breaks.len() == 0 {
        assert(line + breaks =~= line);
    } else {
        let less = breaks.drop_last();
        assert forall|i: int| 0 <= i < less.len() implies #[trigger] less[i] == '\n' by {
            assert(breaks[i] == '\n');
        }
        law_breaks_are_not_shown(line, less);
        assert(breaks[breaks.len() - 1] == '\n');
        assert((line + breaks).drop_last() =~= line + less);
    }
}

/// A short time is shown in milliseconds, a long one in minutes and seconds.
pub proof fn law_durations_are_shown(nanos: nat)
    ensures
        nanos < 1_000_000_000 ==> duration_text(nanos) == text::decimal(nanos / 1_000_000) + seq![
            'm',
            's',
        ],
        nanos >= 60_000_000_000 ==> ({
            let secs = nanos / 1_000_000_000;
            duration_text(nanos) == text::decimal(secs / 60) + seq!['m'] + text::right_aligned(
                text::decimal(secs % 60),
                2,
                '0',
            ) + seq!['s']
        }),
{
    reveal_strlit("ms");
    reveal_strlit("m");
    reveal_strlit("s");
    assert("ms"@ =~= seq!['m', 's']);
    assert("m"@ =~= seq!['m']);
    assert("s"@ =~= seq!['s']);
}

/// A read begins with the first line, or with the one that is asked for.
pub proof fn law_reads_begin_where_asked(args: crate::json::Json)
    ensures
        read_start(args) >= 1,
        crate::tools::schema::size_arg(args, "offset"@) matches Some(n) && n >= 1 ==> read_start(
            args,
        ) == crate::tools::schema::size_arg(args, "offset"@)->0,
        crate::tools::schema::size_arg(args, "offset"@) is None ==> read_start(args) == 1,
        crate::tools::schema::size_arg(args, "limit"@) is None ==> read_limit(args) == 2000,
        crate::tools::schema::size_arg(args, "limit"@) is Some ==> read_limit(args)
            == crate::tools::schema::size_arg(args, "limit"@)->0,
{
}

} // verus!
