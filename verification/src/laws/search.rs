//! What a search finds and how it shows it.
use vstd::prelude::*;
use crate::laws::text::law_joining;
use crate::matching::{glob_matches, regex_matches};
use crate::text;
use crate::tools::search::{
    all_results, file_result, glob_body, glob_hits, hit_lines, law_hits_are_newest_first,
    law_hits_are_the_matches, looked_at, mode_of, result_lines, walked_file, walked_files, wanted,
    GrepRequest, OutputMode, WalkEntry,
};
use crate::util::{file_name_of, shown_path};

verus! {

// ---------------------------------------------------------------------------
// grep
// ---------------------------------------------------------------------------

/// How one line is shown: the line that matched with colons, one near it with
/// dashes, and both with their number, from one on.
pub open spec fn row(shown: Seq<char>, lines: Seq<Seq<char>>, j: int, hit: int) -> Seq<char> {
    if j == hit {
        shown + ":"@ + text::decimal((j + 1) as nat) + ":"@ + lines[j] + "\n"@
    } else {
        shown + "-"@ + text::decimal((j + 1) as nat) + "-"@ + lines[j] + "\n"@
    }
}

/// Whether `rows` are the lines from `first` on, each as it is shown.
pub open spec fn are_rows(
    rows: Seq<Seq<char>>,
    first: int,
    shown: Seq<char>,
    lines: Seq<Seq<char>>,
    hit: int,
) -> bool {
    forall|k: int| 0 <= k < rows.len() ==> #[trigger] rows[k] == row(shown, lines, first + k, hit)
}

/// Whether a line is at most so far away from another.
pub open spec fn is_near(j: int, hit: int, context: int) -> bool {
    hit - context <= j <= hit + context
}

/// Whether `rows`, from `first` on, are all the lines at most `context` away from
/// a match.
pub open spec fn is_neighbourhood(
    rows: Seq<Seq<char>>,
    first: int,
    hit: int,
    context: int,
    total: int,
) -> bool {
    forall|j: int|
        (first <= j < first + rows.len()) == (0 <= j < total && #[trigger] is_near(j, hit, context))
}

/// Whether `text_of` is what is shown of one match: the lines at most
/// `context` away from it, and no others, one after the other.
pub open spec fn is_shown(
    text_of: Seq<char>,
    shown: Seq<char>,
    lines: Seq<Seq<char>>,
    hit: int,
    context: int,
) -> bool {
    exists|rows: Seq<Seq<char>>, first: int|
        #[trigger] are_rows(rows, first, shown, lines, hit) && is_neighbourhood(
            rows,
            first,
            hit,
            context,
            lines.len() as int,
        ) && text_of == text::joined(rows, Seq::empty())
}

proof fn lemma_rows(
    shown: Seq<char>,
    lines: Seq<Seq<char>>,
    hit: int,
    from: int,
    to: int,
) -> (rows: Seq<Seq<char>>)
    requires
        from <= to,
    ensures
        rows.len() == to - from,
        are_rows(rows, from, shown, lines, hit),
        result_lines(shown, lines, hit, from, to) == text::joined(rows, Seq::empty()),
    decreases to - from,
{
    if from == to {
        Seq::empty()
    } else {
        let before = lemma_rows(shown, lines, hit, from, to - 1);
        let last = row(shown, lines, to - 1, hit);
        let rows = before.push(last);
        if before.len() > 0 {
            law_joining(before, seq![last], Seq::empty());
            assert(before + seq![last] =~= rows);
            assert(text::joined(seq![last], Seq::empty()) == last);
            assert(text::joined(before, Seq::empty()) + Seq::<char>::empty() =~= text::joined(
                before,
                Seq::empty(),
            ));
        } else {
            assert(rows =~= seq![last]);
            assert(Seq::<char>::empty() + last =~= last);
        }
        rows
    }
}

/// A match is shown with the lines at most so far away from it as was asked for,
/// before it and behind it, and with no others.
pub proof fn law_matches_are_shown_with_their_context(
    shown: Seq<char>,
    lines: Seq<Seq<char>>,
    hit: int,
    context: nat,
)
    requires
        0 <= hit < lines.len(),
    ensures
        is_shown(
            all_results(shown, lines, seq![hit], context as int),
            shown,
            lines,
            hit,
            context as int,
        ),
{
    let n = lines.len() as int;
    let from = crate::tools::search::context_start(hit, context as int);
    let to = crate::tools::search::context_end(hit, context as int, n);
    let rows = lemma_rows(shown, lines, hit, from, to);
    assert(seq![hit].drop_last() =~= Seq::<int>::empty());
    assert(all_results(shown, lines, Seq::empty(), context as int) =~= Seq::<char>::empty());
    assert(all_results(shown, lines, seq![hit], context as int) =~= result_lines(
        shown,
        lines,
        hit,
        from,
        to,
    ));
    assert(are_rows(rows, from, shown, lines, hit));
}

/// Matches are shown one after the other.
pub proof fn law_matches_are_shown_in_turn(
    shown: Seq<char>,
    lines: Seq<Seq<char>>,
    hits: Seq<int>,
    hit: int,
    context: nat,
)
    ensures
        all_results(shown, lines, hits.push(hit), context as int) == all_results(
            shown,
            lines,
            hits,
            context as int,
        ) + all_results(shown, lines, seq![hit], context as int),
        all_results(shown, lines, Seq::empty(), context as int) == Seq::<char>::empty(),
{
    assert(hits.push(hit).drop_last() =~= hits);
    assert(seq![hit].drop_last() =~= Seq::<int>::empty());
    assert(all_results(shown, lines, Seq::empty(), context as int) =~= Seq::<char>::empty());
    assert(all_results(shown, lines, hits.push(hit), context as int) =~= all_results(
        shown,
        lines,
        hits,
        context as int,
    ) + all_results(shown, lines, seq![hit], context as int));
}

/// The matches of a file come in the order of its lines, each once, and are all
/// the lines that the expression matches.
pub proof fn law_matches_come_in_order(
    lines: Seq<Seq<char>>,
    pattern: Seq<char>,
    ignore_case: bool,
)
    ensures
        ({
            let hits = hit_lines(lines, pattern, ignore_case);
            &&& forall|a: int, b: int| 0 <= a < b < hits.len() ==> hits[a] < hits[b]
            &&& forall|a: int| 0 <= a < hits.len() ==> 0 <= #[trigger] hits[a] < lines.len()
            &&& forall|i: int|
                0 <= i < lines.len() ==> hits.contains(i) == regex_matches(
                    pattern,
                    ignore_case,
                    #[trigger] lines[i],
                )
        }),
    decreases lines.len(),
{
    let hits = hit_lines(lines, pattern, ignore_case);
    if lines.len() > 0 {
        law_matches_come_in_order(lines.drop_last(), pattern, ignore_case);
        let before = hit_lines(lines.drop_last(), pattern, ignore_case);
        assert forall|a: int| 0 <= a < hits.len() implies 0 <= #[trigger] hits[a] < lines.len() by {
            if a < before.len() {
                assert(hits[a] == before[a]);
            }
        }
        assert forall|a: int, b: int| 0 <= a < b < hits.len() implies hits[a] < hits[b] by {
            assert(hits[a] == before[a]);
            if b < before.len() {
                assert(hits[b] == before[b]);
            }
        }
    }
    assert forall|i: int| 0 <= i < lines.len() implies hits.contains(i) == regex_matches(
        pattern,
        ignore_case,
        #[trigger] lines[i],
    ) by {
        law_hits_are_the_matches(lines, pattern, ignore_case, i);
    }
}

/// What a file adds to a search: its matches, or only its path, or only how many
/// lines match.
pub proof fn law_modes_say_what_is_shown(
    q: GrepRequest,
    shown: Seq<char>,
    lines: Seq<Seq<char>>,
    hits: Seq<int>,
)
    ensures
        q.mode == OutputMode::Content ==> file_result(q, shown, lines, hits) == all_results(
            shown,
            lines,
            hits,
            q.context as int,
        ),
        q.mode == OutputMode::Files ==> file_result(q, shown, lines, hits) == shown.push('\n'),
        q.mode == OutputMode::Count ==> file_result(q, shown, lines, hits) == shown + seq![
            ':',
            ' ',
        ] + text::decimal(hits.len()) + seq!['\n'],
        mode_of("count"@) == OutputMode::Count,
        mode_of("files_with_matches"@) == OutputMode::Files,
        mode_of("content"@) == OutputMode::Content,
{
    reveal_strlit("\n");
    reveal_strlit(": ");
    reveal_strlit("count");
    reveal_strlit("content");
    reveal_strlit("files_with_matches");
    assert("\n"@ =~= seq!['\n']);
    assert(": "@ =~= seq![':', ' ']);
    assert("count"@.len() != "content"@.len());
    assert(shown + "\n"@ =~= shown.push('\n'));
}

/// A search looks into every file, or only into those whose path or name the
/// glob matches.
pub proof fn law_filters_go_by_path_or_name(
    q: GrepRequest,
    workspace: Seq<char>,
    path: Seq<char>,
)
    ensures
        q.glob is None ==> wanted(q, workspace, path),
        q.glob matches Some(g) ==> {
            &&& glob_matches(g@, shown_path(workspace, path)) ==> wanted(q, workspace, path)
            &&& forall|name: Seq<char>|
                file_name_of(path) == Some(name) && #[trigger] glob_matches(g@, name) ==> wanted(
                    q,
                    workspace,
                    path,
                )
            &&& wanted(q, workspace, path) && !glob_matches(g@, shown_path(workspace, path)) ==> (
            file_name_of(path) is Some && glob_matches(g@, file_name_of(path)->0))
        },
{
}

// ---------------------------------------------------------------------------
// glob
// ---------------------------------------------------------------------------

/// Whether a walk came upon a file, early enough to be looked at.
pub open spec fn came_upon(
    entries: Seq<Option<WalkEntry>>,
    path: Seq<char>,
    modified: i128,
) -> bool {
    exists|i: int|
        0 <= i < entries.len() && i <= 200_000 && (#[trigger] entries[i] matches Some(e) && !e.is_dir
            && e.path@ == path && (match e.modified {
            Some(t) => t == modified,
            None => modified == 0,
        }))
}

proof fn lemma_walked(entries: Seq<Option<WalkEntry>>, f: (Seq<char>, i128))
    ensures
        walked_files(entries).contains(f) == exists|i: int|
            0 <= i < entries.len() && (#[trigger] entries[i] matches Some(e) && !e.is_dir
                && walked_file(e) == f),
    decreases entries.len(),
{
    let all = walked_files(entries);
    if entries.len() > 0 {
        let front = entries.drop_last();
        let before = walked_files(front);
        lemma_walked(front, f);
        if all.contains(f) {
            let k = choose|k: int| 0 <= k < all.len() && all[k] == f;
            if k < before.len() {
                assert(before[k] == f);
                assert(before.contains(f));
                let i = choose|i: int|
                    0 <= i < front.len() && (#[trigger] front[i] matches Some(e) && !e.is_dir
                        && walked_file(e) == f);
                assert(entries[i] == front[i]);
            } else {
                assert(entries[entries.len() - 1] is Some);
            }
        }
        if exists|i: int|
            0 <= i < entries.len() && (#[trigger] entries[i] matches Some(e) && !e.is_dir
                && walked_file(e) == f) {
            let i = choose|i: int|
                0 <= i < entries.len() && (#[trigger] entries[i] matches Some(e) && !e.is_dir
                    && walked_file(e) == f);
            if i < front.len() {
                assert(front[i] == entries[i]);
                assert(before.contains(f));
                let k = choose|k: int| 0 <= k < before.len() && before[k] == f;
                assert(all[k] == f);
            } else {
                assert(all[before.len() as int] == f);
            }
        }
    }
}

/// A glob finds the files that the walk came upon whose path, whole or below the
/// workspace, it matches: all of them and no others, the newest first.
pub proof fn law_globs_find_the_matching_files(
    pattern: Seq<char>,
    workspace: Seq<char>,
    entries: Seq<Option<WalkEntry>>,
    f: (Seq<char>, i128),
)
    ensures
        ({
            let hits = glob_hits(pattern, workspace, entries);
            &&& hits.contains(f) == (came_upon(entries, f.0, f.1) && (glob_matches(pattern, f.0)
                || glob_matches(pattern, shown_path(workspace, f.0))))
            &&& forall|a: int, b: int| 0 <= a < b < hits.len() ==> hits[a].1 >= hits[b].1
        }),
{
    broadcast use vstd::seq_lib::group_to_multiset_ensures;

    let keep = |g: (Seq<char>, i128)| crate::tools::search::file_matches(pattern, workspace, g.0);
    let walked = walked_files(looked_at(entries));
    let kept = walked.filter(keep);
    let hits = glob_hits(pattern, workspace, entries);
    law_hits_are_newest_first(kept);
    assert(hits.contains(f) == kept.contains(f)) by {
        assert(hits.to_multiset().count(f) == kept.to_multiset().count(f));
    }
    lemma_kept(walked, keep, f);
    lemma_walked(looked_at(entries), f);
    let seen = looked_at(entries);
    if came_upon(entries, f.0, f.1) {
        let i = choose|i: int|
            0 <= i < entries.len() && i <= 200_000 && (#[trigger] entries[i] matches Some(e)
                && !e.is_dir && e.path@ == f.0 && (match e.modified {
                Some(t) => t == f.1,
                None => f.1 == 0,
            }));
        assert(seen[i] == entries[i]);
    }
    if walked.contains(f) {
        let i = choose|i: int|
            0 <= i < seen.len() && (#[trigger] seen[i] matches Some(e) && !e.is_dir && walked_file(
                e,
            ) == f);
        assert(entries[i] == seen[i]);
    }
}

proof fn lemma_kept(
    s: Seq<(Seq<char>, i128)>,
    keep: spec_fn((Seq<char>, i128)) -> bool,
    f: (Seq<char>, i128),
)
    ensures
        s.filter(keep).contains(f) == (s.contains(f) && keep(f)),
    decreases s.len(),
{
    reveal(Seq::filter);
    if s.len() > 0 {
        let front = s.drop_last();
        lemma_kept(front, keep, f);
        let all = s.filter(keep);
        let before = front.filter(keep);
        if all.contains(f) {
            let k = choose|k: int| 0 <= k < all.len() && all[k] == f;
            if k < before.len() {
                assert(before[k] == f);
                assert(before.contains(f));
                let i = choose|i: int| 0 <= i < front.len() && front[i] == f;
                assert(s[i] == f);
            } else {
                assert(s[s.len() - 1] == f);
            }
        }
        if s.contains(f) && keep(f) {
            let i = choose|i: int| 0 <= i < s.len() && s[i] == f;
            if i < front.len() {
                assert(front[i] == f);
                assert(front.contains(f));
                let k = choose|k: int| 0 <= k < before.len() && before[k] == f;
                assert(all[k] == f);
            } else {
                assert(all[before.len() as int] == f);
            }
        }
    }
}

/// What a glob found is listed one path on a line, as seen from the workspace.
pub proof fn law_hits_are_listed(
    pattern: Seq<char>,
    workspace: Seq<char>,
    hits: Seq<(Seq<char>, i128)>,
    f: (Seq<char>, i128),
)
    ensures
        glob_body(pattern, workspace, hits.push(f)) == if hits.len() == 0 {
            shown_path(workspace, f.0) + "\n"@
        } else {
            glob_body(pattern, workspace, hits) + shown_path(workspace, f.0) + "\n"@
        },
{
    let show = |g: (Seq<char>, i128)| shown_path(workspace, g.0);
    let all = hits.push(f).map_values(show);
    assert(all.drop_last() =~= hits.map_values(show));
    assert(all.last() == shown_path(workspace, f.0));
    if hits.len() == 0 {
        assert(all =~= seq![shown_path(workspace, f.0)]);
    } else {
        assert(glob_body(pattern, workspace, hits.push(f)) =~= glob_body(pattern, workspace, hits)
            + shown_path(workspace, f.0) + "\n"@);
    }
}

} // verus!
