//! Finding files by name and by content.
use vstd::prelude::*;
use vstd::string::StringExecFns;
use crate::api::sse::{decode_lossy, utf8_lossy};
use crate::json::Json;
use crate::matching::{
    glob_error, glob_is_match, glob_match_each, glob_matches, glob_problem, regex_error,
    regex_match_each, regex_matches, regex_problem,
};
use crate::text;
use crate::tools::fs::{
    call_line, call_text, is_failure, MAX_SEARCH_BYTES, MAX_WALK_ENTRIES,
};
use crate::tools::schema::{
    arg_bool, arg_str, arg_str_or, arg_usize, choice, count_text, counted, flag_arg, is_schema,
    param, param_views, required_text, schema, size_arg, str_views, text_or, Param, ParamView,
};
use crate::tools::{ToolInfo, ToolKind, ToolOutcome};
use crate::util;

verus! {

// ---------------------------------------------------------------------------
// glob
// ---------------------------------------------------------------------------

pub const GLOB_DESCRIPTION: &'static str = "Find files by name pattern, respecting .gitignore. Results are sorted by modification time, newest first, so recently touched files come up first.";

pub struct Glob;

/// What a walk through a directory tree came upon.
#[derive(Debug)]
pub struct WalkEntry {
    pub path: String,
    pub is_dir: bool,
    /// When it was modified, in nanoseconds from the Unix epoch, where known.
    pub modified: Option<i128>,
}

/// A file of a walk: its path and when it was modified. Where that is not known,
/// the epoch stands for it.
pub open spec fn walked_file(e: WalkEntry) -> (Seq<char>, i128) {
    (
        e.path@,
        match e.modified {
            Some(t) => t,
            None => 0,
        },
    )
}

/// The files among what a walk came upon. What could not be read is absent.
pub open spec fn walked_files(entries: Seq<Option<WalkEntry>>) -> Seq<(Seq<char>, i128)>
    decreases entries.len(),
{
    if entries.len() == 0 {
        Seq::empty()
    } else {
        let before = walked_files(entries.drop_last());
        match entries.last() {
            Some(e) => if e.is_dir {
                before
            } else {
                before.push(walked_file(e))
            },
            None => before,
        }
    }
}

/// The part of a walk that is looked at.
pub open spec fn looked_at(entries: Seq<Option<WalkEntry>>) -> Seq<Option<WalkEntry>> {
    if entries.len() > MAX_WALK_ENTRIES + 1 {
        entries.take(MAX_WALK_ENTRIES + 1)
    } else {
        entries
    }
}

/// Whether a pattern matches a file, by its path below the workspace or by its
/// whole path.
pub open spec fn file_matches(
    pattern: Seq<char>,
    workspace: Seq<char>,
    path: Seq<char>,
) -> bool {
    glob_matches(pattern, util::shown_path(workspace, path)) || glob_matches(pattern, path)
}

/// Files from the newest to the oldest, with one more put in its place: behind
/// those that are as new.
pub open spec fn newest_inserted(
    sorted: Seq<(Seq<char>, i128)>,
    f: (Seq<char>, i128),
) -> Seq<(Seq<char>, i128)>
    decreases sorted.len(),
{
    if sorted.len() == 0 || f.1 <= sorted.last().1 {
        sorted.push(f)
    } else {
        newest_inserted(sorted.drop_last(), f).push(sorted.last())
    }
}

/// Files from the newest to the oldest.
pub open spec fn newest_first(files: Seq<(Seq<char>, i128)>) -> Seq<(Seq<char>, i128)>
    decreases files.len(),
{
    if files.len() == 0 {
        Seq::empty()
    } else {
        newest_inserted(newest_first(files.drop_last()), files.last())
    }
}

/// The files that a glob finds, newest first.
pub open spec fn glob_hits(
    pattern: Seq<char>,
    workspace: Seq<char>,
    entries: Seq<Option<WalkEntry>>,
) -> Seq<(Seq<char>, i128)> {
    newest_first(
        walked_files(looked_at(entries)).filter(
            |f: (Seq<char>, i128)| file_matches(pattern, workspace, f.0),
        ),
    )
}

/// The text of what a glob found.
pub open spec fn glob_body(
    pattern: Seq<char>,
    workspace: Seq<char>,
    hits: Seq<(Seq<char>, i128)>,
) -> Seq<char> {
    if hits.len() == 0 {
        "No files match `"@ + pattern + "`\n"@
    } else {
        text::joined(
            hits.map_values(|f: (Seq<char>, i128)| util::shown_path(workspace, f.0)),
            "\n"@,
        ) + "\n"@
    }
}

pub open spec fn file_view(f: (String, i128)) -> (Seq<char>, i128) {
    (f.0@, f.1)
}

pub open spec fn file_views(files: Seq<(String, i128)>) -> Seq<(Seq<char>, i128)> {
    files.map_values(|f: (String, i128)| file_view(f))
}

fn files_of_walk(entries: &Vec<Option<WalkEntry>>) -> (r: Vec<(String, i128)>)
    ensures
        file_views(r@) == walked_files(looked_at(entries@)),
{
    let mut out: Vec<(String, i128)> = Vec::new();
    let mut i: usize = 0;
    let n: usize = if entries.len() > MAX_WALK_ENTRIES + 1 {
        MAX_WALK_ENTRIES + 1
    } else {
        entries.len()
    };
    let ghost all = looked_at(entries@);
    assert(all =~= entries@.take(n as int));
    assert(file_views(out@) =~= Seq::<(Seq<char>, i128)>::empty());
    while i < n
        invariant
            i <= n <= entries@.len(),
            all == entries@.take(n as int),
            file_views(out@) == walked_files(all.take(i as int)),
        decreases n - i,
    {
        proof {
            assert(all.take(i + 1).drop_last() =~= all.take(i as int));
        }
        match &entries[i] {
            Some(e) => {
                if !e.is_dir {
                    let ghost before = file_views(out@);
                    let t: i128 = match e.modified {
                        Some(t) => t,
                        None => 0,
                    };
                    out.push((e.path.clone(), t));
                    assert(file_views(out@) =~= before.push(walked_file(*e)));
                }
            },
            None => {},
        }
        i += 1;
    }
    assert(all.take(all.len() as int) =~= all);
    out
}

fn insert_newest(sorted: &mut Vec<(String, i128)>, f: (String, i128))
    ensures
        file_views(final(sorted)@) == newest_inserted(file_views(old(sorted)@), file_view(f)),
{
    let ghost s = file_views(sorted@);
    let ghost c = file_view(f);
    let mut j: usize = sorted.len();
    assert(s.take(j as int) =~= s);
    assert(newest_inserted(s.take(j as int), c) + s.skip(j as int) =~= newest_inserted(s, c));
    while j > 0 && f.1 > sorted[j - 1].1
        invariant
            j <= sorted@.len(),
            s == file_views(sorted@),
            c == file_view(f),
            newest_inserted(s.take(j as int), c) + s.skip(j as int) == newest_inserted(s, c),
        decreases j,
    {
        proof {
            let t = s.take(j as int);
            assert(t.last() == file_view(sorted@[j - 1]));
            assert(t.drop_last() =~= s.take(j - 1));
            let ins = newest_inserted(s.take(j - 1), c);
            assert(ins.push(t.last()) + s.skip(j as int) =~= ins + s.skip(j - 1));
        }
        j -= 1;
    }
    proof {
        let t = s.take(j as int);
        if j > 0 {
            assert(t.last() == file_view(sorted@[j - 1]));
        }
        assert(newest_inserted(t, c) == t.push(c));
    }
    sorted.insert(j, f);
    assert(file_views(sorted@) =~= s.take(j as int).push(c) + s.skip(j as int));
}

/// The files that a glob finds, newest first.
fn find_files(pattern: &str, workspace: &str, entries: &Vec<Option<WalkEntry>>) -> (r: Vec<
    (String, i128),
>)
    ensures
        file_views(r@) == glob_hits(pattern@, workspace@, entries@),
{
    let files = files_of_walk(entries);
    let ghost all = file_views(files@);
    let mut paths: Vec<String> = Vec::new();
    let mut rels: Vec<String> = Vec::new();
    let mut i: usize = 0;
    while i < files.len()
        invariant
            i <= files@.len(),
            paths@.len() == i,
            rels@.len() == i,
            forall|k: int| 0 <= k < i ==> (#[trigger] paths@[k])@ == files@[k].0@,
            forall|k: int|
                0 <= k < i ==> (#[trigger] rels@[k])@ == util::shown_path(
                    workspace@,
                    files@[k].0@,
                ),
        decreases files.len() - i,
    {
        rels.push(util::display_path(workspace, &files[i].0));
        paths.push(files[i].0.clone());
        i += 1;
    }
    let by_rel = glob_match_each(pattern, &rels);
    let by_path = glob_match_each(pattern, &paths);
    let ghost keep = |f: (Seq<char>, i128)| file_matches(pattern@, workspace@, f.0);
    let mut out: Vec<(String, i128)> = Vec::new();
    let mut j: usize = 0;
    proof {
        reveal(Seq::filter);
        assert(all.take(0).filter(keep) =~= Seq::<(Seq<char>, i128)>::empty());
        assert(file_views(out@) =~= Seq::<(Seq<char>, i128)>::empty());
    }
    while j < files.len()
        invariant
            j <= files@.len(),
            all == file_views(files@),
            by_rel@.len() == files@.len(),
            by_path@.len() == files@.len(),
            rels@.len() == files@.len(),
            paths@.len() == files@.len(),
            keep == (|f: (Seq<char>, i128)| file_matches(pattern@, workspace@, f.0)),
            forall|k: int| 0 <= k < files@.len() ==> (#[trigger] paths@[k])@ == files@[k].0@,
            forall|k: int|
                0 <= k < files@.len() ==> (#[trigger] rels@[k])@ == util::shown_path(
                    workspace@,
                    files@[k].0@,
                ),
            forall|k: int|
                0 <= k < by_rel@.len() ==> #[trigger] by_rel@[k] == glob_matches(
                    pattern@,
                    rels@[k]@,
                ),
            forall|k: int|
                0 <= k < by_path@.len() ==> #[trigger] by_path@[k] == glob_matches(
                    pattern@,
                    paths@[k]@,
                ),
            file_views(out@) == newest_first(all.take(j as int).filter(keep)),
        decreases files.len() - j,
    {
        proof {
            reveal(Seq::filter);
            assert(all.take(j + 1).drop_last() =~= all.take(j as int));
            assert(all[j as int] == file_view(files@[j as int]));
            assert(rels@[j as int]@ == util::shown_path(workspace@, files@[j as int].0@));
            assert(paths@[j as int]@ == files@[j as int].0@);
        }
        if by_rel[j] || by_path[j] {
            proof {
                assert(keep(all[j as int]));
                let f = all.take(j as int).filter(keep);
                assert(f.push(all[j as int]).drop_last() =~= f);
            }
            let copy: (String, i128) = (files[j].0.clone(), files[j].1);
            insert_newest(&mut out, copy);
        } else {
            assert(!keep(all[j as int]));
        }
        j += 1;
    }
    assert(all.take(all.len() as int) =~= all);
    out
}

/// The arguments that `glob` advertises.
pub open spec fn glob_params() -> Seq<ParamView> {
    seq![
        param(
            "pattern"@,
            "string"@,
            "Glob pattern, e.g. `**/*.rs` or `src/**/mod.rs`."@,
        ),
        param(
            "path"@,
            "string"@,
            "Directory to search under. Defaults to the workspace root."@,
        ),
        param(
            "hidden"@,
            "boolean"@,
            "Include dotfiles and files excluded by .gitignore. Defaults to false."@,
        ),
    ]
}

impl Glob {
    pub fn name(&self) -> (r: &'static str)
        ensures
            r@ == "glob"@,
    {
        "glob"
    }

    pub fn kind(&self) -> (r: ToolKind)
        ensures
            r == ToolKind::Read,
    {
        ToolKind::Read
    }

    /// The tool as it is advertised.
    pub fn info(&self) -> (r: ToolInfo)
        ensures
            r.name@ == "glob"@,
            r.kind == ToolKind::Read,
            r.description@ == GLOB_DESCRIPTION@,
            is_schema(*r.parameters, glob_params(), seq!["pattern"@]),
    {
        let params = vec![
            Param {
                name: "pattern",
                ty: "string",
                description: "Glob pattern, e.g. `**/*.rs` or `src/**/mod.rs`.",
                choices: Vec::new(),
            },
            Param {
                name: "path",
                ty: "string",
                description: "Directory to search under. Defaults to the workspace root.",
                choices: Vec::new(),
            },
            Param {
                name: "hidden",
                ty: "boolean",
                description: "Include dotfiles and files excluded by .gitignore. Defaults to false.",
                choices: Vec::new(),
            },
        ];
        let required: Vec<&'static str> = vec!["pattern"];
        assert(param_views(params@) =~~= glob_params());
        assert(str_views(required@) =~= seq!["pattern"@]);
        ToolInfo::new("glob", GLOB_DESCRIPTION, schema(params, required), ToolKind::Read)
    }

    pub fn summarize(&self, args: &Json) -> (r: String)
        ensures
            r@ == call_text("Glob"@, text_or(*args, "pattern"@, ""@)),
    {
        call_line("Glob", &arg_str_or(args, "pattern", ""))
    }

    /// The pattern, the directory and whether hidden files count.
    pub fn request(&self, args: &Json) -> (r: Result<(String, String, bool), ToolOutcome>)
        ensures
            match required_text(*args, "pattern"@) {
                Err(e) => r matches Err(o) && is_failure(o, e),
                Ok(p) => r matches Ok(v) && v.0@ == p && v.1@ == text_or(*args, "path"@, "."@)
                    && v.2 == flag_arg(*args, "hidden"@),
            },
    {
        match arg_str(args, "pattern") {
            Ok(p) => Ok((p, arg_str_or(args, "path", "."), arg_bool(args, "hidden"))),
            Err(e) => Err(ToolOutcome::error(&e)),
        }
    }

    /// Why a pattern is refused, where it is.
    pub fn check(&self, pattern: &str) -> (r: Option<ToolOutcome>)
        ensures
            match glob_error(pattern@) {
                Some(e) => r matches Some(o) && is_failure(
                    o,
                    "invalid glob `"@ + pattern@ + "`: "@ + e,
                ),
                None => r is None,
            },
    {
        match glob_problem(pattern) {
            Some(e) => {
                let mut out = "invalid glob `".to_owned();
                out.append(pattern);
                out.append("`: ");
                out.append(&e);
                Some(ToolOutcome::error(&out))
            },
            None => None,
        }
    }

    /// What a glob finds among what a walk came upon.
    pub fn run(&self, workspace: &str, pattern: &str, entries: &Vec<Option<WalkEntry>>) -> (r:
        ToolOutcome)
        ensures
            ({
                let hits = glob_hits(pattern@, workspace@, entries@);
                &&& !r.is_error
                &&& r.content@ == util::truncated(
                    glob_body(pattern@, workspace@, hits),
                    MAX_SEARCH_BYTES as nat,
                )
                &&& text::opt_view(r.display.summary) == Some(
                    counted(hits.len(), " file"@, " files"@),
                )
                &&& r.display.path is None
                &&& r.display.diff_stats is None
                &&& r.display.diff@.len() == 0
            }),
    {
        let found = find_files(pattern, workspace, entries);
        let ghost hits = glob_hits(pattern@, workspace@, entries@);
        assert(file_views(found@).len() == found@.len());
        let mut listing: Vec<String> = Vec::new();
        let ghost show = |f: (Seq<char>, i128)| util::shown_path(workspace@, f.0);
        let mut i: usize = 0;
        while i < found.len()
            invariant
                i <= found@.len(),
                hits == file_views(found@),
                show == (|f: (Seq<char>, i128)| util::shown_path(workspace@, f.0)),
                text::views(listing@) == hits.map_values(show).take(i as int),
            decreases found.len() - i,
        {
            let ghost before = text::views(listing@);
            assert(hits[i as int] == file_view(found@[i as int]));
            let p = util::display_path(workspace, &found[i].0);
            let ghost pv = p@;
            listing.push(p);
            assert(text::views(listing@) =~= before.push(pv));
            i += 1;
            assert(text::views(listing@) =~= hits.map_values(show).take(i as int));
        }
        assert(hits.map_values(show).take(hits.len() as int) =~= hits.map_values(show));
        let body = if found.len() == 0 {
            let mut b = "No files match `".to_owned();
            b.append(pattern);
            b.append("`\n");
            b
        } else {
            let mut b = text::join(&listing, "\n");
            b.append("\n");
            b
        };
        ToolOutcome::ok(&util::truncate_text(&body, MAX_SEARCH_BYTES)).with_summary(
            &count_text(found.len(), " file", " files"),
        )
    }
}

/// From the newest to the oldest.
pub open spec fn is_newest_first(files: Seq<(Seq<char>, i128)>) -> bool {
    forall|i: int, j: int|
        0 <= i < j < files.len() ==> (#[trigger] files[i]).1 >= (#[trigger] files[j]).1
}

proof fn lemma_newest_inserted(sorted: Seq<(Seq<char>, i128)>, f: (Seq<char>, i128))
    requires
        is_newest_first(sorted),
    ensures
        is_newest_first(newest_inserted(sorted, f)),
        newest_inserted(sorted, f).len() == sorted.len() + 1,
        newest_inserted(sorted, f).last() == f || (sorted.len() > 0 && newest_inserted(
            sorted,
            f,
        ).last() == sorted.last()),
    decreases sorted.len(),
{
    if sorted.len() == 0 || f.1 <= sorted.last().1 {
        let r = sorted.push(f);
        assert forall|i: int, j: int| 0 <= i < j < r.len() implies (#[trigger] r[i]).1 >= (
        #[trigger] r[j]).1 by {
            if j == sorted.len() {
                assert(sorted[i].1 >= sorted[sorted.len() - 1].1);
            }
        }
    } else {
        let front = sorted.drop_last();
        assert(is_newest_first(front)) by {
            assert forall|i: int, j: int| 0 <= i < j < front.len() implies (
            #[trigger] front[i]).1 >= (#[trigger] front[j]).1 by {
                assert(front[i] == sorted[i] && front[j] == sorted[j]);
            }
        }
        lemma_newest_inserted(front, f);
        let g = newest_inserted(front, f);
        let r = g.push(sorted.last());
        assert forall|i: int, j: int| 0 <= i < j < r.len() implies (#[trigger] r[i]).1 >= (
        #[trigger] r[j]).1 by {
            if j == g.len() {
                assert(g[i].1 >= g[g.len() - 1].1);
                if g.last() != f {
                    assert(g.last() == sorted[sorted.len() - 2]);
                }
            }
        }
    }
}

/// What a glob finds is sorted by modification time, newest first, and sorting
/// loses and adds nothing.
pub proof fn law_hits_are_newest_first(files: Seq<(Seq<char>, i128)>)
    ensures
        is_newest_first(newest_first(files)),
        newest_first(files).to_multiset() == files.to_multiset(),
    decreases files.len(),
{
    broadcast use vstd::seq_lib::group_to_multiset_ensures;

    if files.len() > 0 {
        law_hits_are_newest_first(files.drop_last());
        lemma_newest_inserted(newest_first(files.drop_last()), files.last());
        lemma_inserted_multiset(newest_first(files.drop_last()), files.last());
        assert(files.drop_last().push(files.last()) =~= files);
    } else {
        assert(newest_first(files) =~= files);
    }
}

proof fn lemma_inserted_multiset(sorted: Seq<(Seq<char>, i128)>, f: (Seq<char>, i128))
    ensures
        newest_inserted(sorted, f).to_multiset() == sorted.to_multiset().insert(f),
    decreases sorted.len(),
{
    broadcast use vstd::seq_lib::group_to_multiset_ensures;

    if sorted.len() == 0 || sorted.last().1 >= f.1 {
    } else {
        lemma_inserted_multiset(sorted.drop_last(), f);
        assert(sorted.drop_last().push(sorted.last()) =~= sorted);
        assert(sorted.drop_last().to_multiset().insert(f).insert(sorted.last())
            =~= sorted.drop_last().to_multiset().insert(sorted.last()).insert(f));
    }
}

// ---------------------------------------------------------------------------
// grep
// ---------------------------------------------------------------------------

pub const GREP_DESCRIPTION: &'static str = "Search file contents by regular expression, respecting .gitignore. Prefer this over reading many files: it is the main way to find code.";

pub struct Grep;

/// What a search returns.
#[derive(Debug, Clone, Copy, PartialEq, Eq, Structural)]
pub enum OutputMode {
    /// The matching lines.
    Content,
    /// The paths of the files that match.
    Files,
    /// The number of matches in each file.
    Count,
}

/// What a search asks for.
#[derive(Debug)]
pub struct GrepRequest {
    pub pattern: String,
    pub path: String,
    pub glob: Option<String>,
    pub ignore_case: bool,
    pub mode: OutputMode,
    /// Lines shown around each match.
    pub context: usize,
}

/// The mode that a name stands for.
pub open spec fn mode_of(name: Seq<char>) -> OutputMode {
    if name == "files_with_matches"@ {
        OutputMode::Files
    } else if name == "count"@ {
        OutputMode::Count
    } else {
        OutputMode::Content
    }
}

/// Why a search is refused, where it is.
pub open spec fn grep_problem(q: GrepRequest) -> Option<Seq<char>> {
    match regex_error(q.pattern@, q.ignore_case) {
        Some(e) => Some("invalid regex `"@ + q.pattern@ + "`: "@ + e),
        None => match q.glob {
            Some(g) => match glob_error(g@) {
                Some(e) => Some("invalid glob: "@ + e),
                None => None,
            },
            None => None,
        },
    }
}

/// The arguments that `grep` advertises.
pub open spec fn grep_params() -> Seq<ParamView> {
    seq![
        param(
            "pattern"@,
            "string"@,
            "Rust-flavoured regular expression to search for."@,
        ),
        param(
            "path"@,
            "string"@,
            "Directory or file to search. Defaults to the workspace root."@,
        ),
        param(
            "glob"@,
            "string"@,
            "Only search files matching this glob, e.g. `*.rs`."@,
        ),
        param(
            "case_insensitive"@,
            "boolean"@,
            "Ignore case. Defaults to false."@,
        ),
        choice(
            "output_mode"@,
            "string"@,
            "`content` returns matching lines (default), `files_with_matches` returns only paths, `count` returns per-file counts."@,
            seq!["content"@, "files_with_matches"@, "count"@],
        ),
        param(
            "context"@,
            "integer"@,
            "Lines of context around each match. Only for output_mode=content."@,
        ),
    ]
}

impl Grep {
    pub fn name(&self) -> (r: &'static str)
        ensures
            r@ == "grep"@,
    {
        "grep"
    }

    pub fn kind(&self) -> (r: ToolKind)
        ensures
            r == ToolKind::Read,
    {
        ToolKind::Read
    }

    /// The tool as it is advertised.
    pub fn info(&self) -> (r: ToolInfo)
        ensures
            r.name@ == "grep"@,
            r.kind == ToolKind::Read,
            r.description@ == GREP_DESCRIPTION@,
            is_schema(*r.parameters, grep_params(), seq!["pattern"@]),
    {
        let params = vec![
            Param {
                name: "pattern",
                ty: "string",
                description: "Rust-flavoured regular expression to search for.",
                choices: Vec::new(),
            },
            Param {
                name: "path",
                ty: "string",
                description: "Directory or file to search. Defaults to the workspace root.",
                choices: Vec::new(),
            },
            Param {
                name: "glob",
                ty: "string",
                description: "Only search files matching this glob, e.g. `*.rs`.",
                choices: Vec::new(),
            },
            Param {
                name: "case_insensitive",
                ty: "boolean",
                description: "Ignore case. Defaults to false.",
                choices: Vec::new(),
            },
            Param {
                name: "output_mode",
                ty: "string",
                description: "`content` returns matching lines (default), `files_with_matches` returns only paths, `count` returns per-file counts.",
                choices: vec!["content", "files_with_matches", "count"],
            },
            Param {
                name: "context",
                ty: "integer",
                description: "Lines of context around each match. Only for output_mode=content.",
                choices: Vec::new(),
            },
        ];
        let required: Vec<&'static str> = vec!["pattern"];
        assert(param_views(params@) =~~= grep_params());
        assert(str_views(required@) =~= seq!["pattern"@]);
        ToolInfo::new("grep", GREP_DESCRIPTION, schema(params, required), ToolKind::Read)
    }

    pub fn summarize(&self, args: &Json) -> (r: String)
        ensures
            r@ == call_text("Grep"@, text_or(*args, "pattern"@, ""@)),
    {
        call_line("Grep", &arg_str_or(args, "pattern", ""))
    }

    /// What a call asks for.
    pub fn request(&self, args: &Json) -> (r: Result<GrepRequest, ToolOutcome>)
        ensures
            match required_text(*args, "pattern"@) {
                Err(e) => r matches Err(o) && is_failure(o, e),
                Ok(p) => r matches Ok(q) && q.pattern@ == p && q.path@ == text_or(
                    *args,
                    "path"@,
                    "."@,
                ) && text::opt_view(q.glob) == crate::json::str_field(*args, "glob"@)
                    && q.ignore_case == flag_arg(*args, "case_insensitive"@) && q.mode == mode_of(
                    text_or(*args, "output_mode"@, "content"@),
                ) && q.context == (match size_arg(*args, "context"@) {
                    Some(n) => n,
                    None => 0,
                }),
            },
    {
        let pattern = match arg_str(args, "pattern") {
            Ok(p) => p,
            Err(e) => {
                return Err(ToolOutcome::error(&e));
            },
        };
        let name = arg_str_or(args, "output_mode", "content");
        let mode = if text::same(&name, "files_with_matches") {
            OutputMode::Files
        } else if text::same(&name, "count") {
            OutputMode::Count
        } else {
            OutputMode::Content
        };
        let context: usize = match arg_usize(args, "context") {
            Some(n) => n,
            None => 0,
        };
        Ok(
            GrepRequest {
                pattern,
                path: arg_str_or(args, "path", "."),
                glob: args.get_str("glob"),
                ignore_case: arg_bool(args, "case_insensitive"),
                mode,
                context,
            },
        )
    }

    /// Why a search is refused, where it is.
    pub fn check(&self, q: &GrepRequest) -> (r: Option<ToolOutcome>)
        ensures
            match grep_problem(*q) {
                Some(e) => r matches Some(o) && is_failure(o, e),
                None => r is None,
            },
    {
        match regex_problem(&q.pattern, q.ignore_case) {
            Some(e) => {
                let mut out = "invalid regex `".to_owned();
                out.append(&q.pattern);
                out.append("`: ");
                out.append(&e);
                return Some(ToolOutcome::error(&out));
            },
            None => {},
        }
        match &q.glob {
            Some(g) => match glob_problem(g) {
                Some(e) => {
                    let mut out = "invalid glob: ".to_owned();
                    out.append(&e);
                    Some(ToolOutcome::error(&out))
                },
                None => None,
            },
            None => None,
        }
    }
}

/// A search in progress.
#[derive(Debug)]
pub struct Search {
    pub workspace: String,
    pub request: GrepRequest,
    pub out: String,
    /// The number of matches.
    pub total: usize,
    /// The number of files that matched.
    pub files: usize,
    /// The number of entries that the walk came upon.
    pub seen: usize,
}

/// The indices of the lines that an expression matches.
pub open spec fn hit_lines(
    lines: Seq<Seq<char>>,
    pattern: Seq<char>,
    ignore_case: bool,
) -> Seq<int>
    decreases lines.len(),
{
    if lines.len() == 0 {
        Seq::empty()
    } else {
        let before = hit_lines(lines.drop_last(), pattern, ignore_case);
        if regex_matches(pattern, ignore_case, lines.last()) {
            before.push(lines.len() - 1)
        } else {
            before
        }
    }
}

/// One line of a result. `:` marks the match, `-` marks context, the convention
/// that grep uses.
pub open spec fn result_line(shown: Seq<char>, line: Seq<char>, at: int, hit: int) -> Seq<char> {
    let sep = if at == hit {
        ":"@
    } else {
        "-"@
    };
    shown + sep + text::decimal((at + 1) as nat) + sep + line + "\n"@
}

/// The lines `from` to `to - 1` around a match.
pub open spec fn result_lines(
    shown: Seq<char>,
    lines: Seq<Seq<char>>,
    hit: int,
    from: int,
    to: int,
) -> Seq<char>
    decreases to - from,
{
    if to <= from {
        Seq::empty()
    } else {
        result_lines(shown, lines, hit, from, to - 1) + result_line(
            shown,
            lines[to - 1],
            to - 1,
            hit,
        )
    }
}

/// The first line that is shown around a match.
pub open spec fn context_start(hit: int, context: int) -> int {
    if hit >= context {
        hit - context
    } else {
        0
    }
}

/// The line after the last that is shown around a match.
pub open spec fn context_end(hit: int, context: int, total: int) -> int {
    if hit + context + 1 <= total {
        hit + context + 1
    } else {
        total
    }
}

/// All matches of a file with the lines around them.
pub open spec fn all_results(
    shown: Seq<char>,
    lines: Seq<Seq<char>>,
    hits: Seq<int>,
    context: int,
) -> Seq<char>
    decreases hits.len(),
{
    if hits.len() == 0 {
        Seq::empty()
    } else {
        let hit = hits.last();
        all_results(shown, lines, hits.drop_last(), context) + result_lines(
            shown,
            lines,
            hit,
            context_start(hit, context),
            context_end(hit, context, lines.len() as int),
        )
    }
}

/// What a file with matches adds to the output.
pub open spec fn file_result(
    q: GrepRequest,
    shown: Seq<char>,
    lines: Seq<Seq<char>>,
    hits: Seq<int>,
) -> Seq<char> {
    match q.mode {
        OutputMode::Files => shown + "\n"@,
        OutputMode::Count => shown + ": "@ + text::decimal(hits.len()) + "\n"@,
        OutputMode::Content => all_results(shown, lines, hits, q.context as int),
    }
}

pub open spec fn saturated(n: int) -> int {
    if n > usize::MAX {
        usize::MAX as int
    } else {
        n
    }
}

/// Whether a search is to look into a file.
pub open spec fn wanted(q: GrepRequest, workspace: Seq<char>, path: Seq<char>) -> bool {
    match q.glob {
        None => true,
        Some(g) => glob_matches(g@, util::shown_path(workspace, path)) || (util::file_name_of(
            path,
        ) matches Some(n) && glob_matches(g@, n)),
    }
}

fn matching_lines(lines: &Vec<String>, pattern: &str, ignore_case: bool) -> (r: Vec<usize>)
    ensures
        r@.map_values(|i: usize| i as int) == hit_lines(text::views(lines@), pattern@, ignore_case),
        forall|i: int| 0 <= i < r@.len() ==> #[trigger] r@[i] < lines@.len(),
{
    let flags = regex_match_each(pattern, ignore_case, lines);
    let ghost all = text::views(lines@);
    let mut out: Vec<usize> = Vec::new();
    let mut i: usize = 0;
    assert(out@.map_values(|i: usize| i as int) =~= Seq::<int>::empty());
    while i < lines.len()
        invariant
            i <= lines@.len(),
            flags@.len() == lines@.len(),
            all == text::views(lines@),
            forall|k: int|
                0 <= k < flags@.len() ==> #[trigger] flags@[k] == regex_matches(
                    pattern@,
                    ignore_case,
                    lines@[k]@,
                ),
            out@.map_values(|i: usize| i as int) == hit_lines(
                all.take(i as int),
                pattern@,
                ignore_case,
            ),
            forall|k: int| 0 <= k < out@.len() ==> #[trigger] out@[k] < i,
        decreases lines.len() - i,
    {
        proof {
            assert(all.take(i + 1).drop_last() =~= all.take(i as int));
            assert(all[i as int] == lines@[i as int]@);
        }
        if flags[i] {
            let ghost before = out@.map_values(|i: usize| i as int);
            out.push(i);
            assert(out@.map_values(|i: usize| i as int) =~= before.push(i as int));
        }
        i += 1;
    }
    assert(all.take(all.len() as int) =~= all);
    out
}

fn show_hit(shown: &str, lines: &Vec<String>, hit: usize, context: usize) -> (r: String)
    requires
        hit < lines@.len(),
    ensures
        r@ == result_lines(
            shown@,
            text::views(lines@),
            hit as int,
            context_start(hit as int, context as int),
            context_end(hit as int, context as int, lines@.len() as int),
        ),
{
    let ghost all = text::views(lines@);
    let from: usize = if hit >= context { hit - context } else { 0 };
    let to: usize = if context < lines.len() - hit { hit + context + 1 } else { lines.len() };
    let mut out = String::new();
    let mut j: usize = from;
    while j < to
        invariant
            from <= j <= to <= lines@.len(),
            all == text::views(lines@),
            out@ == result_lines(shown@, all, hit as int, from as int, j as int),
        decreases to - j,
    {
        let sep = if j == hit { ":" } else { "-" };
        let mut row = shown.to_owned();
        row.append(sep);
        row.append(&text::number((j + 1) as u64));
        row.append(sep);
        row.append(&lines[j]);
        row.append("\n");
        assert(all[j as int] == lines@[j as int]@);
        out.append(&row);
        j += 1;
    }
    out
}

impl Search {
    pub fn new(workspace: &str, request: GrepRequest) -> (r: Self)
        ensures
            r.workspace@ == workspace@,
            r.request == request,
            r.out@.len() == 0,
            r.total == 0,
            r.files == 0,
            r.seen == 0,
    {
        Search {
            workspace: workspace.to_owned(),
            request,
            out: String::new(),
            total: 0,
            files: 0,
            seen: 0,
        }
    }

    /// Whether another entry is looked at. The walk ends after too many entries
    /// or too much output. An entry that is looked at is counted.
    pub fn next(&mut self) -> (r: bool)
        ensures
            r == (old(self).seen <= MAX_WALK_ENTRIES && text::byte_count(old(self).out@)
                <= MAX_SEARCH_BYTES),
            *final(self) == (Search {
                seen: if r {
                    (old(self).seen + 1) as usize
                } else {
                    old(self).seen
                },
                ..*old(self)
            }),
    {
        if self.seen > MAX_WALK_ENTRIES || text::byte_len(&self.out) > MAX_SEARCH_BYTES {
            return false;
        }
        self.seen = self.seen + 1;
        true
    }

    /// Whether the search looks into a file.
    pub fn wants(&self, path: &str) -> (r: bool)
        ensures
            r == wanted(self.request, self.workspace@, path@),
    {
        match &self.request.glob {
            None => true,
            Some(g) => {
                if glob_is_match(g, &util::display_path(&self.workspace, path)) {
                    return true;
                }
                match util::file_name(path) {
                    Some(n) => glob_is_match(g, &n),
                    None => false,
                }
            },
        }
    }

    /// Searches a file, of which `bytes` are the contents. A binary file is
    /// passed over.
    pub fn add_file(&mut self, path: &str, bytes: &[u8])
        ensures
            ({
                let lines = text::lines_of(utf8_lossy(bytes@));
                let q = old(self).request;
                let hits = hit_lines(lines, q.pattern@, q.ignore_case);
                let binary = exists|i: int|
                    0 <= i < bytes@.len() && i < 8192 && #[trigger] bytes@[i] == 0;
                let shown = util::shown_path(old(self).workspace@, path@);
                &&& final(self).workspace == old(self).workspace
                &&& final(self).request == old(self).request
                &&& final(self).seen == old(self).seen
                &&& if binary || hits.len() == 0 {
                    final(self).out == old(self).out && final(self).total == old(self).total
                        && final(self).files == old(self).files
                } else {
                    &&& final(self).out@ == old(self).out@ + file_result(q, shown, lines, hits)
                    &&& final(self).total == saturated(old(self).total + hits.len())
                    &&& final(self).files == saturated(old(self).files + 1)
                }
            }),
    {
        if util::looks_binary(bytes) {
            return;
        }
        let content = decode_lossy(bytes);
        let lines = text::lines(&content);
        let hits = matching_lines(&lines, &self.request.pattern, self.request.ignore_case);
        let ghost all = text::lines_of(content@);
        let ghost at = hits@.map_values(|i: usize| i as int);
        assert(at.len() == hits@.len());
        if hits.len() == 0 {
            return;
        }
        self.files = self.files.saturating_add(1);
        self.total = self.total.saturating_add(hits.len());
        let shown = util::display_path(&self.workspace, path);
        match self.request.mode {
            OutputMode::Files => {
                let mut row = shown;
                row.append("\n");
                self.out.append(&row);
            },
            OutputMode::Count => {
                let mut row = shown;
                row.append(": ");
                row.append(&text::number(hits.len() as u64));
                row.append("\n");
                self.out.append(&row);
            },
            OutputMode::Content => {
                let rows = show_hits(&shown, &lines, &hits, self.request.context);
                self.out.append(&rows);
            },
        }
    }

    /// The outcome of the search.
    pub fn finish(&self) -> (r: ToolOutcome)
        ensures
            !r.is_error,
            r.content@ == util::truncated(
                if self.out@.len() == 0 {
                    "No matches\n"@
                } else {
                    self.out@
                },
                MAX_SEARCH_BYTES as nat,
            ),
            text::opt_view(r.display.summary) == Some(
                if self.request.mode == OutputMode::Files {
                    counted(self.files as nat, " file"@, " files"@)
                } else {
                    counted(self.total as nat, " match"@, " matches"@) + " in "@ + counted(
                        self.files as nat,
                        " file"@,
                        " files"@,
                    )
                },
            ),
            r.display.path is None,
            r.display.diff_stats is None,
            r.display.diff@.len() == 0,
    {
        let body = if self.out.as_str().is_empty() {
            "No matches\n".to_owned()
        } else {
            self.out.clone()
        };
        let in_files = count_text(self.files, " file", " files");
        let summary = match self.request.mode {
            OutputMode::Files => in_files,
            _ => {
                let mut s = count_text(self.total, " match", " matches");
                s.append(" in ");
                s.append(&in_files);
                s
            },
        };
        ToolOutcome::ok(&util::truncate_text(&body, MAX_SEARCH_BYTES)).with_summary(&summary)
    }
}

fn show_hits(shown: &str, lines: &Vec<String>, hits: &Vec<usize>, context: usize) -> (r: String)
    requires
        forall|i: int| 0 <= i < hits@.len() ==> #[trigger] hits@[i] < lines@.len(),
    ensures
        r@ == all_results(
            shown@,
            text::views(lines@),
            hits@.map_values(|i: usize| i as int),
            context as int,
        ),
{
    let ghost all = text::views(lines@);
    let ghost at = hits@.map_values(|i: usize| i as int);
    let mut out = String::new();
    let mut i: usize = 0;
    while i < hits.len()
        invariant
            i <= hits@.len(),
            all == text::views(lines@),
            at == hits@.map_values(|i: usize| i as int),
            forall|i: int| 0 <= i < hits@.len() ==> #[trigger] hits@[i] < lines@.len(),
            out@ == all_results(shown@, all, at.take(i as int), context as int),
        decreases hits.len() - i,
    {
        assert(at.take(i + 1).drop_last() =~= at.take(i as int));
        assert(at[i as int] == hits@[i as int]);
        assert(hits@[i as int] < lines@.len());
        out.append(&show_hit(shown, lines, hits[i], context));
        i += 1;
    }
    assert(at.take(at.len() as int) =~= at);
    out
}

proof fn lemma_hit_lines(lines: Seq<Seq<char>>, pattern: Seq<char>, ignore_case: bool)
    ensures
        forall|k: int|
            0 <= k < hit_lines(lines, pattern, ignore_case).len() ==> {
                let i = #[trigger] hit_lines(lines, pattern, ignore_case)[k];
                0 <= i < lines.len() && regex_matches(pattern, ignore_case, lines[i])
            },
        forall|i: int|
            0 <= i < lines.len() && #[trigger] regex_matches(pattern, ignore_case, lines[i])
                ==> hit_lines(lines, pattern, ignore_case).contains(i),
    decreases lines.len(),
{
    if lines.len() > 0 {
        let front = lines.drop_last();
        lemma_hit_lines(front, pattern, ignore_case);
        let h = hit_lines(lines, pattern, ignore_case);
        let g = hit_lines(front, pattern, ignore_case);
        assert forall|k: int| 0 <= k < h.len() implies {
            let i = #[trigger] h[k];
            0 <= i < lines.len() && regex_matches(pattern, ignore_case, lines[i])
        } by {
            if k < g.len() {
                assert(h[k] == g[k]);
                assert(front[g[k]] == lines[g[k]]);
            }
        }
        assert forall|i: int|
            0 <= i < lines.len() && #[trigger] regex_matches(
                pattern,
                ignore_case,
                lines[i],
            ) implies h.contains(i) by {
            if i < front.len() {
                assert(front[i] == lines[i]);
                assert(g.contains(i));
                let k = choose|k: int| 0 <= k < g.len() && g[k] == i;
                assert(h[k] == i);
            } else {
                assert(h[g.len() as int] == i);
            }
        }
    }
}

/// The lines that are reported are exactly the lines that the expression
/// matches.
pub proof fn law_hits_are_the_matches(
    lines: Seq<Seq<char>>,
    pattern: Seq<char>,
    ignore_case: bool,
    i: int,
)
    requires
        0 <= i < lines.len(),
    ensures
        hit_lines(lines, pattern, ignore_case).contains(i) == regex_matches(
            pattern,
            ignore_case,
            lines[i],
        ),
{
    lemma_hit_lines(lines, pattern, ignore_case);
    let h = hit_lines(lines, pattern, ignore_case);
    if h.contains(i) {
        let k = choose|k: int| 0 <= k < h.len() && h[k] == i;
        assert(regex_matches(pattern, ignore_case, lines[h[k]]));
    }
}

} // verus!
