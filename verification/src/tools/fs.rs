//! Filesystem tools: read, write, edit, list, glob, grep.
//!
//! Every path argument is resolved against the workspace and then checked for
//! escape, in [`resolve_in_workspace`]. Output size is bounded everywhere: a tool
//! result goes straight into the model's context.
use vstd::prelude::*;
use vstd::string::StringExecFns;
use crate::api::sse::{decode_lossy, utf8_lossy};
use crate::json::Json;
use crate::matching::{lowercase, to_lower};
use crate::table::{comes_before, precedes};
use crate::text;
use crate::tools::edit::{plan_edit, planned, EditError, EditPlan, PlanView, Recovery};
use crate::tools::schema::{
    arg_bool, arg_str, arg_str_or, arg_usize, count_text, counted, flag_arg, is_schema, param,
    param_views, required_text, schema, size_arg, str_views, text_or, Param, ParamView,
};
use crate::tools::{
    staleness, FileStamp, ToolContext, ToolDisplay, ToolInfo, ToolKind, ToolOutcome,
};
use crate::util;
use crate::util::{lemma_bytes_of_sum, lemma_number_is_short, lemma_plain_bytes};

verus! {

/// Largest single file the read tool will return.
pub const MAX_READ_BYTES: usize = 262_144;

/// Largest result any search tool will return.
pub const MAX_SEARCH_BYTES: usize = 65_536;

/// Default number of lines returned by a read with no explicit limit.
pub const DEFAULT_READ_LINES: usize = 2000;

/// Hard cap on files walked by glob/grep, so a runaway pattern terminates.
pub const MAX_WALK_ENTRIES: usize = 200_000;

// ---------------------------------------------------------------------------
// The sandbox
// ---------------------------------------------------------------------------

/// What the disk says of a path.
#[derive(Debug)]
pub enum Probe {
    /// Nothing is there.
    Missing,
    /// Something is there, with the path that it has once symbolic links are
    /// followed, where that can be told.
    Found(Option<String>),
}

/// A path, its directory, and so on, as long as there is a name to take off.
pub open spec fn probe_chain(path: Seq<char>) -> Seq<Seq<char>>
    decreases path.len(),
{
    match (util::file_name_of(path), util::parent_of(path)) {
        (Some(_), Some(up)) => {
            proof {
                util::lemma_parent_shorter(path);
            }
            seq![path] + probe_chain(up)
        },
        _ => seq![path],
    }
}

/// The place of the first probe, at or after `from`, that found something.
pub open spec fn first_found(probes: Seq<Probe>, from: int) -> Option<int>
    decreases probes.len() - from,
{
    if from < 0 || from >= probes.len() {
        None
    } else if probes[from] is Found {
        Some(from)
    } else {
        first_found(probes, from + 1)
    }
}

/// `base` with the last `k` names of `path` below it.
pub open spec fn rebuilt(base: Seq<char>, path: Seq<char>, k: int) -> Seq<char>
    decreases k,
{
    if k <= 0 {
        base
    } else {
        util::below(
            rebuilt(base, util::parent_of(path)->0, k - 1),
            util::file_name_of(path)->0,
        )
    }
}

pub open spec fn outside_text(
    path: Seq<char>,
    resolved: Seq<char>,
    workspace: Seq<char>,
) -> Seq<char> {
    path + " resolves to "@ + resolved + ", which is outside the workspace ("@ + workspace
        + "). Tools may only touch files under the workspace root."@
}

pub open spec fn symlink_text(
    path: Seq<char>,
    canonical: Seq<char>,
    workspace: Seq<char>,
) -> Seq<char> {
    path + " resolves through a symlink to "@ + canonical + ", which is outside the workspace ("@
        + workspace + "). Tools may only touch files under the workspace root."@
}

/// Where a path argument leads, or why it is refused. The probes tell of the
/// path, its directory, and so on.
pub open spec fn resolution(
    workspace: Seq<char>,
    path: Seq<char>,
    probes: Seq<Probe>,
) -> Result<Seq<char>, Seq<char>> {
    let lexical = util::resolved(workspace, path);
    if !util::lies_within(workspace, lexical) {
        Err(outside_text(path, lexical, workspace))
    } else {
        match first_found(probes, 0) {
            None => Err(outside_text(path, lexical, workspace)),
            Some(k) => match probes[k] {
                Probe::Found(Some(canonical)) => if !util::lies_within(workspace, canonical@) {
                    Err(symlink_text(path, canonical@, workspace))
                } else {
                    Ok(rebuilt(canonical@, lexical, k))
                },
                _ => Err(outside_text(path, lexical, workspace)),
            },
        }
    }
}

/// The paths to probe for a path argument: the resolved path, its directory, and
/// so on. Empty where the path is refused before anything is probed.
pub fn probe_paths(workspace: &str, path: &str) -> (r: Vec<String>)
    ensures
        text::views(r@) == (if util::lies_within(
            workspace@,
            util::resolved(workspace@, path@),
        ) {
            probe_chain(util::resolved(workspace@, path@))
        } else {
            Seq::empty()
        }),
{
    let lexical = util::resolve(workspace, path);
    let mut out: Vec<String> = Vec::new();
    if !util::is_within(workspace, &lexical) {
        assert(text::views(out@) =~= Seq::<Seq<char>>::empty());
        return out;
    }
    let ghost whole = probe_chain(lexical@);
    let mut cur = lexical;
    assert(text::views(out@) + probe_chain(cur@) =~= whole);
    loop
        invariant
            whole == probe_chain(util::resolved(workspace@, path@)),
            util::lies_within(workspace@, util::resolved(workspace@, path@)),
            text::views(out@) + probe_chain(cur@) == whole,
        decreases cur@.len(),
    {
        let ghost before = text::views(out@);
        let ghost cv = cur@;
        let name = util::file_name(&cur);
        let up = util::parent(&cur);
        out.push(cur);
        assert(text::views(out@) =~= before.push(cv));
        match (name, up) {
            (Some(_), Some(dir)) => {
                proof {
                    util::lemma_parent_shorter(cv);
                    let rest = probe_chain(dir@);
                    assert(before.push(cv) + rest =~= before + (seq![cv] + rest));
                }
                cur = dir;
            },
            _ => {
                assert(before + seq![cv] =~= before.push(cv));
                return out;
            },
        }
    }
}

fn outside_error(path: &str, resolved: &str, workspace: &str) -> (r: String)
    ensures
        r@ == outside_text(path@, resolved@, workspace@),
{
    let mut out = path.to_owned();
    out.append(" resolves to ");
    out.append(resolved);
    out.append(", which is outside the workspace (");
    out.append(workspace);
    out.append("). Tools may only touch files under the workspace root.");
    out
}

/// `base` with the names of `path` that come after its `k`-th directory.
fn rebuild(base: &str, path: &str, k: usize) -> (r: String)
    requires
        k < probe_chain(path@).len(),
    ensures
        r@ == rebuilt(base@, path@, k as int),
    decreases k,
{
    if k == 0 {
        return base.to_owned();
    }
    match (util::file_name(path), util::parent(path)) {
        (Some(name), Some(up)) => {
            let dir = rebuild(base, &up, k - 1);
            util::join_path(&dir, &name)
        },
        _ => {
            assert(false);
            base.to_owned()
        },
    }
}

/// Resolve `path` inside the workspace, rejecting escapes.
///
/// Two checks, and both are necessary: the *lexical* one catches
/// `../../etc/passwd` even when nothing on that path exists yet; the *physical*
/// one follows symbolic links and checks containment again. It looks at the
/// deepest part of the path that exists, and rebuilds the remainder on top, so a
/// new file inherits the verdict of the directory it will live in.
///
/// `probes` tells of each of the [`probe_paths`].
pub fn resolve_in_workspace(workspace: &str, path: &str, probes: &Vec<Probe>) -> (r: Result<
    String,
    String,
>)
    requires
        util::lies_within(workspace@, util::resolved(workspace@, path@)) ==> probes@.len()
            == probe_chain(util::resolved(workspace@, path@)).len(),
    ensures
        crate::tools::schema::result_view(r) == resolution(workspace@, path@, probes@),
{
    let lexical = util::resolve(workspace, path);
    if !util::is_within(workspace, &lexical) {
        return Err(outside_error(path, &lexical, workspace));
    }
    let mut k: usize = 0;
    while k < probes.len()
        invariant
            k <= probes.len(),
            lexical@ == util::resolved(workspace@, path@),
            util::lies_within(workspace@, lexical@),
            probes@.len() == probe_chain(lexical@).len(),
            first_found(probes@, 0) == first_found(probes@, k as int),
        decreases probes.len() - k,
    {
        match &probes[k] {
            Probe::Found(Some(canonical)) => {
                if !util::is_within(workspace, canonical) {
                    let mut out = path.to_owned();
                    out.append(" resolves through a symlink to ");
                    out.append(canonical);
                    out.append(", which is outside the workspace (");
                    out.append(workspace);
                    out.append("). Tools may only touch files under the workspace root.");
                    return Err(out);
                }
                return Ok(rebuild(canonical, &lexical, k));
            },
            Probe::Found(None) => {
                return Err(outside_error(path, &lexical, workspace));
            },
            Probe::Missing => {},
        }
        k += 1;
    }
    Err(outside_error(path, &lexical, workspace))
}

proof fn lemma_rebuilt_extends(base: Seq<char>, path: Seq<char>, k: int)
    requires
        k < probe_chain(path).len(),
    ensures
        util::components(base).is_prefix_of(util::components(rebuilt(base, path, k))),
    decreases k,
{
    if k > 0 {
        let up = util::parent_of(path)->0;
        let name = util::file_name_of(path)->0;
        lemma_rebuilt_extends(base, up, k - 1);
        util::lemma_names_plain(path);
        let c = util::components(path);
        let off = c.len() - util::names(path).len();
        assert(util::is_name(name) && !name.contains('/')) by {
            let last = c.len() - 1;
            if last >= off {
                assert(c[last] == util::names(path)[last - off]);
            }
        }
        let dir = rebuilt(base, up, k - 1);
        util::lemma_below_components(dir, name);
        let a = util::components(base);
        let b = util::components(dir);
        let d = util::components(rebuilt(base, path, k));
        assert(a =~= d.take(a.len() as int)) by {
            assert(b == d.take(b.len() as int));
            assert(a == b.take(a.len() as int));
        }
    } else {
        let a = util::components(base);
        assert(a =~= a.take(a.len() as int));
    }
}

proof fn lemma_first_found(probes: Seq<Probe>, from: int)
    requires
        0 <= from,
    ensures
        first_found(probes, from) matches Some(k) ==> from <= k < probes.len() && probes[k] is Found,
    decreases probes.len() - from,
{
    if from < probes.len() && !(probes[from] is Found) {
        lemma_first_found(probes, from + 1);
    }
}

/// Whatever the disk says, a path that is accepted lies within the workspace.
pub proof fn law_accepted_paths_lie_within(
    workspace: Seq<char>,
    path: Seq<char>,
    probes: Seq<Probe>,
)
    requires
        probes.len() <= probe_chain(util::resolved(workspace, path)).len(),
        resolution(workspace, path, probes) is Ok,
    ensures
        util::lies_within(workspace, resolution(workspace, path, probes)->Ok_0),
{
    let lexical = util::resolved(workspace, path);
    lemma_first_found(probes, 0);
    let k = first_found(probes, 0)->0;
    let canonical = probes[k]->0->0@;
    lemma_rebuilt_extends(canonical, lexical, k);
    let w = util::components(workspace);
    let c = util::components(canonical);
    let r = util::components(resolution(workspace, path, probes)->Ok_0);
    assert(w =~= r.take(w.len() as int)) by {
        assert(c == r.take(c.len() as int));
        assert(w == c.take(w.len() as int));
    }
}

/// A path that leads out of the workspace by its text is refused without a look
/// at the disk.
pub proof fn law_lexical_escape_is_refused(
    workspace: Seq<char>,
    path: Seq<char>,
    probes: Seq<Probe>,
)
    requires
        !util::lies_within(workspace, util::resolved(workspace, path)),
    ensures
        resolution(workspace, path, probes) is Err,
{
}


// ---------------------------------------------------------------------------
// Shared by the tools
// ---------------------------------------------------------------------------

/// Whether an outcome is an error with the given text.
pub open spec fn is_failure(o: ToolOutcome, message: Seq<char>) -> bool {
    o.is_error && o.content@ == message && crate::tools::no_detail(o.display)
}

/// Where a path argument leads, or why it is refused. `probes` tells of each of
/// the [`probe_paths`].
pub fn locate(workspace: &str, path: &str, probes: &Vec<Probe>) -> (r: Result<String, ToolOutcome>)
    requires
        util::lies_within(workspace@, util::resolved(workspace@, path@)) ==> probes@.len()
            == probe_chain(util::resolved(workspace@, path@)).len(),
    ensures
        match resolution(workspace@, path@, probes@) {
            Ok(p) => r matches Ok(v) && v@ == p,
            Err(e) => r matches Err(o) && is_failure(o, e),
        },
{
    match resolve_in_workspace(workspace, path, probes) {
        Ok(p) => Ok(p),
        Err(e) => Err(ToolOutcome::error(&e)),
    }
}

/// The file that a call may change, or why it may not: its path must lie within
/// the workspace, and what is there must have been read as it is now.
pub open spec fn changeable(
    ctx: ToolContext,
    path: Seq<char>,
    probes: Seq<Probe>,
    key: Seq<char>,
    now: Option<FileStamp>,
) -> Result<Seq<char>, Seq<char>> {
    match resolution(ctx.workspace@, path, probes) {
        Err(e) => Err(e),
        Ok(p) => match staleness(ctx.read_files@, p, key, now) {
            Some(e) => Err(e),
            None => Ok(p),
        },
    }
}

fn permit(
    ctx: &ToolContext,
    path: &str,
    probes: &Vec<Probe>,
    key: &str,
    now: Option<FileStamp>,
) -> (r: Result<String, ToolOutcome>)
    requires
        ctx.wf(),
        util::lies_within(ctx.workspace@, util::resolved(ctx.workspace@, path@)) ==> probes@.len()
            == probe_chain(util::resolved(ctx.workspace@, path@)).len(),
    ensures
        match changeable(*ctx, path@, probes@, key@, now) {
            Ok(p) => r matches Ok(v) && v@ == p,
            Err(e) => r matches Err(o) && is_failure(o, e),
        },
{
    let at = match locate(&ctx.workspace, path, probes) {
        Ok(p) => p,
        Err(o) => {
            return Err(o);
        },
    };
    match ctx.staleness_error(&at, key, now) {
        Some(e) => Err(ToolOutcome::error(&e)),
        None => Ok(at),
    }
}

/// No call changes a file outside the workspace, nor one that is there and was
/// not read, or changed since it was.
pub proof fn law_unread_files_are_never_changed(
    ctx: ToolContext,
    path: Seq<char>,
    probes: Seq<Probe>,
    key: Seq<char>,
    now: Option<FileStamp>,
)
    requires
        probes.len() <= probe_chain(util::resolved(ctx.workspace@, path)).len(),
        changeable(ctx, path, probes, key, now) is Ok,
    ensures
        util::lies_within(ctx.workspace@, changeable(ctx, path, probes, key, now)->Ok_0),
        now matches Some(stamp) ==> ctx.read_files@.contains_key(key) && (stamp.modified matches Some(
            t,
        ) ==> t <= ctx.read_files@[key]),
{
    law_accepted_paths_lie_within(ctx.workspace@, path, probes);
}

/// `Name(argument)`, the one-line description of a call.
pub open spec fn call_text(name: Seq<char>, argument: Seq<char>) -> Seq<char> {
    name + "("@ + argument + ")"@
}

pub(crate) fn call_line(name: &str, argument: &str) -> (r: String)
    ensures
        r@ == call_text(name@, argument@),
{
    let mut out = name.to_owned();
    out.append("(");
    out.append(argument);
    out.append(")");
    out
}

/// What is said where something cannot be done to a path: `cannot read a: reason`.
pub open spec fn cannot_text(verb: Seq<char>, path: Seq<char>, reason: Seq<char>) -> Seq<char> {
    "cannot "@ + verb + " "@ + path + ": "@ + reason
}

/// The outcome where something could not be done to a path.
pub fn cannot(verb: &str, path: &str, reason: &str) -> (r: ToolOutcome)
    ensures
        is_failure(r, cannot_text(verb@, path@, reason@)),
{
    let mut out = "cannot ".to_owned();
    out.append(verb);
    out.append(" ");
    out.append(path);
    out.append(": ");
    out.append(reason);
    ToolOutcome::error(&out)
}

// ---------------------------------------------------------------------------
// read_file
// ---------------------------------------------------------------------------

pub const READ_FILE_DESCRIPTION: &'static str = "Read a text file. Always read a file before editing it. Each line is prefixed with `<line number>\u{2502}` for reference only \u{2014} that prefix is NOT part of the file, so never include it in `edit_file`'s old_string. Everything after the `\u{2502}` is the file's exact content, including its indentation.";

pub struct ReadFile;

/// The lines `start` to `start + limit - 1` of a file, counted from 1.
pub open spec fn window(lines: Seq<Seq<char>>, start: nat, limit: nat) -> Seq<Seq<char>> {
    if start > lines.len() {
        Seq::empty()
    } else {
        let rest = lines.skip(start - 1);
        if limit < rest.len() {
            rest.take(limit as int)
        } else {
            rest
        }
    }
}

/// What a read returns: the window of lines with their numbers, and a note where
/// more follows.
pub open spec fn read_body(
    path: Seq<char>,
    content: Seq<char>,
    start: nat,
    limit: nat,
) -> Seq<char> {
    let all = text::lines_of(content);
    let slice = window(all, start, limit);
    let numbered = util::numbered(
        text::lines_of(text::joined(slice, "\n"@)),
        start,
        util::LINE_NUMBER_SEPARATOR,
    );
    let end = start + slice.len();
    if all.len() == 0 {
        path + " is empty.\n"@
    } else {
        util::truncated(numbered, MAX_READ_BYTES as nat) + if slice.len() > 0 && end - 1
            < all.len() {
            "\n[showing lines "@ + text::decimal(start) + "-"@ + text::decimal((end - 1) as nat)
                + " of "@ + text::decimal(all.len()) + "; call again with offset="@
                + text::decimal(end) + " for more]\n"@
        } else {
            Seq::empty()
        }
    }
}

/// However large a file is, what a read returns of it is bounded.
pub proof fn law_reads_are_bounded(path: Seq<char>, content: Seq<char>, start: nat, limit: nat)
    requires
        0 < text::lines_of(content).len() <= u64::MAX,
        text::byte_count(
            util::numbered(
                text::lines_of(text::joined(window(text::lines_of(content), start, limit), "\n"@)),
                start,
                util::LINE_NUMBER_SEPARATOR,
            ),
        ) <= u64::MAX,
    ensures
        text::byte_count(read_body(path, content, start, limit)) <= MAX_READ_BYTES + 250,
{
    let all = text::lines_of(content);
    let slice = window(all, start, limit);
    let numbered = util::numbered(
        text::lines_of(text::joined(slice, "\n"@)),
        start,
        util::LINE_NUMBER_SEPARATOR,
    );
    let end = start + slice.len();
    let body = util::truncated(numbered, MAX_READ_BYTES as nat);
    util::law_cut_text_is_bounded(numbered, MAX_READ_BYTES as nat);
    if slice.len() > 0 && end - 1 < all.len() {
        lemma_number_is_short(start);
        lemma_number_is_short((end - 1) as nat);
        lemma_number_is_short(all.len());
        lemma_number_is_short(end);
        reveal_strlit("\n[showing lines ");
        reveal_strlit("-");
        reveal_strlit(" of ");
        reveal_strlit("; call again with offset=");
        reveal_strlit(" for more]\n");
        lemma_plain_bytes("\n[showing lines "@);
        lemma_plain_bytes("-"@);
        lemma_plain_bytes(" of "@);
        lemma_plain_bytes("; call again with offset="@);
        lemma_plain_bytes(" for more]\n"@);
        let a = "\n[showing lines "@ + text::decimal(start);
        let b = a + "-"@ + text::decimal((end - 1) as nat);
        let c = b + " of "@ + text::decimal(all.len());
        let d = c + "; call again with offset="@ + text::decimal(end);
        lemma_bytes_of_sum("\n[showing lines "@, text::decimal(start));
        lemma_bytes_of_sum(a, "-"@);
        lemma_bytes_of_sum(a + "-"@, text::decimal((end - 1) as nat));
        lemma_bytes_of_sum(b, " of "@);
        lemma_bytes_of_sum(b + " of "@, text::decimal(all.len()));
        lemma_bytes_of_sum(c, "; call again with offset="@);
        lemma_bytes_of_sum(c + "; call again with offset="@, text::decimal(end));
        lemma_bytes_of_sum(d, " for more]\n"@);
        lemma_bytes_of_sum(body, d + " for more]\n"@);
    } else {
        lemma_bytes_of_sum(body, Seq::empty());
    }
}

/// The first line that a read asks for, counted from 1.
pub open spec fn read_start(args: Json) -> nat {
    match size_arg(args, "offset"@) {
        Some(n) => if n >= 1 {
            n as nat
        } else {
            1
        },
        None => 1,
    }
}

/// The number of lines that a read asks for.
pub open spec fn read_limit(args: Json) -> nat {
    match size_arg(args, "limit"@) {
        Some(n) => n as nat,
        None => DEFAULT_READ_LINES as nat,
    }
}

/// What a read of a file gives.
pub open spec fn is_read_outcome(
    o: ToolOutcome,
    args: Json,
    workspace: Seq<char>,
    path: Seq<char>,
    bytes: Seq<u8>,
) -> bool {
    let content = utf8_lossy(bytes);
    let total = text::lines_of(content).len();
    let start = read_start(args);
    if exists|i: int| 0 <= i < bytes.len() && i < 8192 && #[trigger] bytes[i] == 0 {
        is_failure(
            o,
            path + " is a binary file ("@ + text::decimal(bytes.len())
                + " bytes) and cannot be read as text."@,
        )
    } else if start > total && total > 0 {
        is_failure(
            o,
            "offset "@ + text::decimal(start) + " is past the end of "@ + path + " ("@
                + text::decimal(total) + " lines)"@,
        )
    } else {
        let shown = window(text::lines_of(content), start, read_limit(args)).len();
        &&& !o.is_error
        &&& o.content@ == read_body(path, content, start, read_limit(args))
        &&& text::opt_view(o.display.path) == Some(util::shown_path(workspace, path))
        &&& text::opt_view(o.display.summary) == Some(counted(shown, " line"@, " lines"@))
        &&& o.display.diff_stats is None
        &&& o.display.diff@.len() == 0
    }
}

proof fn lemma_lines_free(s: Seq<char>)
    ensures
        forall|i: int|
            0 <= i < text::lines_of(s).len() ==> !(#[trigger] text::lines_of(s)[i]).contains('\n'),
{
    text::lemma_pieces_free(s, '\n');
    text::lemma_pieces_nonempty(s, '\n');
    let p = text::pieces(s, '\n');
    assert forall|i: int| 0 <= i < text::lines_of(s).len() implies !(#[trigger] text::lines_of(
        s,
    )[i]).contains('\n') by {
        let l = text::lines_of(s)[i];
        if i < p.len() - 1 {
            assert(l == text::without_cr(p.drop_last()[i]));
            assert(p.drop_last()[i] == p[i]);
            assert(!p[i].contains('\n'));
            assert forall|k: int| 0 <= k < l.len() implies l[k] != '\n' by {
                assert(l[k] == p[i][k]);
                assert(p[i].contains(p[i][k]));
            }
        } else {
            assert(l == p[p.len() - 1]);
        }
    }
}

/// Joined lines fall into no more lines than were joined.
proof fn lemma_joined_lines(lines: Seq<Seq<char>>)
    requires
        forall|i: int| 0 <= i < lines.len() ==> !(#[trigger] lines[i]).contains('\n'),
    ensures
        text::lines_of(text::joined(lines, "\n"@)).len() <= lines.len(),
{
    reveal_strlit("\n");
    assert("\n"@ =~= seq!['\n']);
    let j = text::joined(lines, "\n"@);
    if lines.len() > 0 {
        text::lemma_pieces_joined(lines, '\n');
    } else {
        assert(text::pieces(j, '\n') =~= seq![Seq::<char>::empty()]);
    }
}

/// The lines `start` to `start + limit - 1`, counted from 1.
fn take_window(lines: &Vec<String>, start: usize, limit: usize) -> (r: Vec<String>)
    requires
        1 <= start,
        lines@.len() == 0 || start <= lines@.len(),
    ensures
        text::views(r@) == window(text::views(lines@), start as nat, limit as nat),
{
    let ghost all = text::views(lines@);
    let total: usize = lines.len();
    let mut slice: Vec<String> = Vec::new();
    let ghost win = window(all, start as nat, limit as nat);
    let mut i: usize = start - 1;
    assert(text::views(slice@) =~= win.take(0));
    while i < total && slice.len() < limit
        invariant
            total == lines.len(),
            1 <= start,
            start - 1 <= i,
            i <= total || slice@.len() == 0,
            total == 0 || start <= total,
            all == text::views(lines@),
            win == window(all, start as nat, limit as nat),
            slice@.len() == i - (start - 1),
            slice@.len() <= limit,
            slice@.len() <= win.len(),
            text::views(slice@) == win.take(slice@.len() as int),
        decreases total - i,
    {
        let ghost before = text::views(slice@);
        let ghost k = slice@.len() as int;
        assert(win[k] == all[i as int]);
        assert(all[i as int] == lines@[i as int]@);
        slice.push(lines[i].clone());
        assert(text::views(slice@) =~= before.push(lines@[i as int]@));
        assert(text::views(slice@) =~= win.take(k + 1));
        i += 1;
    }
    assert(win.take(win.len() as int) =~= win);
    slice
}

/// What a read returns, and how many lines it shows.
fn read_window(
    path: &str,
    lines: &Vec<String>,
    start: usize,
    limit: usize,
    content: &str,
) -> (r: (String, usize))
    requires
        text::views(lines@) == text::lines_of(content@),
        1 <= start,
        lines@.len() == 0 || start <= lines@.len(),
    ensures
        r.0@ == read_body(path@, content@, start as nat, limit as nat),
        r.1 == window(text::lines_of(content@), start as nat, limit as nat).len(),
{
    let ghost all = text::lines_of(content@);
    let ghost win = window(all, start as nat, limit as nat);
    let total: usize = lines.len();
    assert(text::views(lines@).len() == lines@.len());
    let slice = take_window(lines, start, limit);
    let shown: usize = slice.len();
    assert(text::views(slice@).len() == slice@.len());
    if total == 0 {
        let mut b = path.to_owned();
        b.append(" is empty.\n");
        return (b, shown);
    }
    proof {
        lemma_lines_free(content@);
        assert forall|j: int| 0 <= j < win.len() implies !(#[trigger] win[j]).contains('\n') by {
            assert(win[j] == all[j + start - 1]);
        }
        lemma_joined_lines(win);
    }
    let joined = text::join(&slice, "\n");
    let numbered = util::number_lines_with(&joined, start, util::LINE_NUMBER_SEPARATOR);
    let mut b = util::truncate_text(&numbered, MAX_READ_BYTES);
    let end: usize = start - 1 + shown;
    if shown > 0 && end < total {
        let mut note = "\n[showing lines ".to_owned();
        note.append(&text::number(start as u64));
        note.append("-");
        note.append(&text::number(end as u64));
        note.append(" of ");
        note.append(&text::number(total as u64));
        note.append("; call again with offset=");
        note.append(&text::number((end + 1) as u64));
        note.append(" for more]\n");
        b.append(&note);
    } else {
        assert(b@ + Seq::<char>::empty() =~= b@);
    }
    (b, shown)
}

/// The arguments that `read_file` advertises.
pub open spec fn read_file_params() -> Seq<ParamView> {
    seq![
        param(
            "path"@,
            "string"@,
            "Path to the file, relative to the workspace root or absolute."@,
        ),
        param(
            "offset"@,
            "integer"@,
            "1-based line number to start from. Use with `limit` to page through a large file."@,
        ),
        param(
            "limit"@,
            "integer"@,
            "Maximum number of lines to return."@,
        ),
    ]
}

impl ReadFile {
    pub fn name(&self) -> (r: &'static str)
        ensures
            r@ == "read_file"@,
    {
        "read_file"
    }

    pub fn kind(&self) -> (r: ToolKind)
        ensures
            r == ToolKind::Read,
    {
        ToolKind::Read
    }

    /// The tool as it is advertised.
    pub fn info(&self) -> (r: ToolInfo)
        ensures
            r.name@ == "read_file"@,
            r.kind == ToolKind::Read,
            r.description@ == READ_FILE_DESCRIPTION@,
            is_schema(*r.parameters, read_file_params(), seq!["path"@]),
    {
        let params = vec![
            Param {
                name: "path",
                ty: "string",
                description: "Path to the file, relative to the workspace root or absolute.",
                choices: Vec::new(),
            },
            Param {
                name: "offset",
                ty: "integer",
                description: "1-based line number to start from. Use with `limit` to page through a large file.",
                choices: Vec::new(),
            },
            Param {
                name: "limit",
                ty: "integer",
                description: "Maximum number of lines to return.",
                choices: Vec::new(),
            },
        ];
        let required = vec!["path"];
        assert(param_views(params@) =~~= read_file_params());
        assert(str_views(required@) =~= seq!["path"@]);
        ToolInfo::new("read_file", READ_FILE_DESCRIPTION, schema(params, required), ToolKind::Read)
    }

    pub fn summarize(&self, args: &Json) -> (r: String)
        ensures
            r@ == call_text("Read"@, text_or(*args, "path"@, ""@)),
    {
        call_line("Read", &arg_str_or(args, "path", ""))
    }

    /// The file that a call asks to read.
    pub fn target(&self, args: &Json) -> (r: Result<String, ToolOutcome>)
        ensures
            match required_text(*args, "path"@) {
                Ok(p) => r matches Ok(v) && v@ == p,
                Err(e) => r matches Err(o) && is_failure(o, e),
            },
    {
        match arg_str(args, "path") {
            Ok(p) => Ok(p),
            Err(e) => Err(ToolOutcome::error(&e)),
        }
    }

    /// What a read of the file at `path` gives, of which `bytes` are the contents.
    pub fn run(&self, args: &Json, workspace: &str, path: &str, bytes: &[u8]) -> (r: ToolOutcome)
        ensures
            is_read_outcome(r, *args, workspace@, path@, bytes@),
    {
        if util::looks_binary(bytes) {
            let mut e = path.to_owned();
            e.append(" is a binary file (");
            e.append(&text::number(bytes.len() as u64));
            e.append(" bytes) and cannot be read as text.");
            return ToolOutcome::error(&e);
        }
        let content = decode_lossy(bytes);
        let lines = text::lines(&content);
        let ghost all = text::lines_of(content@);
        assert(all == text::views(lines@));
        let total: usize = lines.len();
        let offset: usize = match arg_usize(args, "offset") {
            Some(n) => n,
            None => 1,
        };
        let start: usize = if offset >= 1 { offset } else { 1 };
        let limit: usize = match arg_usize(args, "limit") {
            Some(n) => n,
            None => DEFAULT_READ_LINES,
        };
        if start > total && total > 0 {
            let mut e = "offset ".to_owned();
            e.append(&text::number(start as u64));
            e.append(" is past the end of ");
            e.append(path);
            e.append(" (");
            e.append(&text::number(total as u64));
            e.append(" lines)");
            return ToolOutcome::error(&e);
        }
        let (body, shown) = read_window(path, &lines, start, limit, &content);
        let summary = count_text(shown, " line", " lines");
        ToolOutcome::ok(&body).with_display(
            ToolDisplay {
                path: Some(util::display_path(workspace, path)),
                diff_stats: None,
                diff: Vec::new(),
                summary: Some(summary),
            },
        )
    }
}


// ---------------------------------------------------------------------------
// write_file
// ---------------------------------------------------------------------------

pub const WRITE_FILE_DESCRIPTION: &'static str = "Create a file, or overwrite an existing one in full. To change part of an existing file prefer `edit_file`, which is safer and cheaper.";

pub struct WriteFile;

/// A write that may be made.
#[derive(Debug)]
pub struct WriteJob {
    path: String,
    content: String,
}

impl WriteJob {
    /// The file that is written.
    pub closed spec fn at(&self) -> Seq<char> {
        self.path@
    }

    /// What is written.
    pub closed spec fn text(&self) -> Seq<char> {
        self.content@
    }

    pub fn path(&self) -> (r: &str)
        ensures
            r@ == self.at(),
    {
        &self.path
    }

    pub fn content(&self) -> (r: &str)
        ensures
            r@ == self.text(),
    {
        &self.content
    }
}

/// The lines that an edit adds and removes, as `+3 -1`.
pub open spec fn change_text(added: nat, removed: nat) -> Seq<char> {
    "+"@ + text::decimal(added) + " -"@ + text::decimal(removed)
}

fn change_line(added: usize, removed: usize) -> (r: String)
    ensures
        r@ == change_text(added as nat, removed as nat),
{
    let mut out = "+".to_owned();
    out.append(&text::number(added as u64));
    out.append(" -");
    out.append(&text::number(removed as u64));
    out
}

/// Whether a display shows the change of a file from one text to another.
pub open spec fn shows_change(
    d: ToolDisplay,
    shown: Seq<char>,
    before: Seq<char>,
    after: Seq<char>,
) -> bool {
    let stats = util::line_changes(before, after, 0);
    let full = util::line_changes(before, after, 3);
    let added = util::count_kind(stats, util::DiffKind::Added);
    let removed = util::count_kind(stats, util::DiffKind::Removed);
    &&& text::opt_view(d.path) == Some(shown)
    &&& d.diff_stats matches Some(c) && c.0 == added && c.1 == removed
    &&& text::opt_view(d.summary) == Some(change_text(added, removed))
    &&& d.diff@.len() == full.len()
    &&& forall|i: int| 0 <= i < full.len() ==> util::renders(#[trigger] d.diff@[i], full[i])
}

fn change_display(shown: &str, before: &str, after: &str) -> (r: (ToolDisplay, usize, usize))
    ensures
        shows_change(r.0, shown@, before@, after@),
        r.0.diff_stats == Some((r.1, r.2)),
{
    let (added, removed) = util::diff_stats(before, after);
    let d = ToolDisplay {
        path: Some(shown.to_owned()),
        diff_stats: Some((added, removed)),
        diff: util::diff_lines(before, after, 3),
        summary: Some(change_line(added, removed)),
    };
    (d, added, removed)
}

/// What is reported of a written file.
pub open spec fn is_write_outcome(
    o: ToolOutcome,
    shown: Seq<char>,
    existed: bool,
    previous: Seq<char>,
    content: Seq<char>,
) -> bool {
    &&& !o.is_error
    &&& o.content@ == (if existed {
        "Overwrote "@
    } else {
        "Created "@
    }) + shown + " ("@ + text::decimal(text::lines_of(content).len()) + " lines)"@
    &&& shows_change(o.display, shown, previous, content)
}

/// The arguments that `write_file` advertises.
pub open spec fn write_file_params() -> Seq<ParamView> {
    seq![
        param(
            "path"@,
            "string"@,
            "Path to write."@,
        ),
        param(
            "content"@,
            "string"@,
            "Full contents to write. Replaces the file entirely."@,
        ),
    ]
}

impl WriteFile {
    pub fn name(&self) -> (r: &'static str)
        ensures
            r@ == "write_file"@,
    {
        "write_file"
    }

    pub fn kind(&self) -> (r: ToolKind)
        ensures
            r == ToolKind::Edit,
    {
        ToolKind::Edit
    }

    /// The tool as it is advertised.
    pub fn info(&self) -> (r: ToolInfo)
        ensures
            r.name@ == "write_file"@,
            r.kind == ToolKind::Edit,
            r.description@ == WRITE_FILE_DESCRIPTION@,
            is_schema(*r.parameters, write_file_params(), seq!["path"@, "content"@]),
    {
        let params = vec![
            Param {
                name: "path",
                ty: "string",
                description: "Path to write.",
                choices: Vec::new(),
            },
            Param {
                name: "content",
                ty: "string",
                description: "Full contents to write. Replaces the file entirely.",
                choices: Vec::new(),
            },
        ];
        let required: Vec<&'static str> = vec!["path", "content"];
        assert(param_views(params@) =~~= write_file_params());
        assert(str_views(required@) =~= seq!["path"@, "content"@]);
        ToolInfo::new("write_file", WRITE_FILE_DESCRIPTION, schema(params, required), ToolKind::Edit)
    }

    pub fn summarize(&self, args: &Json) -> (r: String)
        ensures
            r@ == call_text("Write"@, text_or(*args, "path"@, ""@)),
    {
        call_line("Write", &arg_str_or(args, "path", ""))
    }

    /// The path and the contents that a call asks to write.
    pub fn request(&self, args: &Json) -> (r: Result<(String, String), ToolOutcome>)
        ensures
            match (required_text(*args, "path"@), required_text(*args, "content"@)) {
                (Err(e), _) => r matches Err(o) && is_failure(o, e),
                (Ok(_), Err(e)) => r matches Err(o) && is_failure(o, e),
                (Ok(p), Ok(c)) => r matches Ok(v) && v.0@ == p && v.1@ == c,
            },
    {
        let path = match arg_str(args, "path") {
            Ok(p) => p,
            Err(e) => {
                return Err(ToolOutcome::error(&e));
            },
        };
        match arg_str(args, "content") {
            Ok(c) => Ok((path, c)),
            Err(e) => Err(ToolOutcome::error(&e)),
        }
    }

    /// Leave to make a write, or why it is refused. `probes` tells of each of the
    /// [`probe_paths`]; `key` and `now` are of the file that they lead to.
    pub fn permit(
        &self,
        ctx: &ToolContext,
        path: &str,
        content: String,
        probes: &Vec<Probe>,
        key: &str,
        now: Option<FileStamp>,
    ) -> (r: Result<WriteJob, ToolOutcome>)
        requires
            ctx.wf(),
            util::lies_within(ctx.workspace@, util::resolved(ctx.workspace@, path@))
                ==> probes@.len() == probe_chain(util::resolved(ctx.workspace@, path@)).len(),
        ensures
            match changeable(*ctx, path@, probes@, key@, now) {
                Ok(p) => r matches Ok(job) && job.at() == p && job.text() == content@,
                Err(e) => r matches Err(o) && is_failure(o, e),
            },
    {
        match permit(ctx, path, probes, key, now) {
            Ok(at) => Ok(WriteJob { path: at, content }),
            Err(o) => Err(o),
        }
    }

    /// What is reported once a write was made, where `previous` was before.
    pub fn run(&self, workspace: &str, job: &WriteJob, existed: bool, previous: &str) -> (r:
        ToolOutcome)
        ensures
            is_write_outcome(
                r,
                util::shown_path(workspace@, job.at()),
                existed,
                previous@,
                job.text(),
            ),
    {
        let shown = util::display_path(workspace, &job.path);
        let (display, _, _) = change_display(&shown, previous, &job.content);
        let lines = text::lines(&job.content);
        assert(text::views(lines@).len() == lines@.len());
        let mut out = (if existed { "Overwrote " } else { "Created " }).to_owned();
        out.append(&shown);
        out.append(" (");
        out.append(&text::number(lines.len() as u64));
        out.append(" lines)");
        ToolOutcome::ok(&out).with_display(display)
    }
}

// ---------------------------------------------------------------------------
// edit_file
// ---------------------------------------------------------------------------

pub const EDIT_FILE_DESCRIPTION: &'static str = "Replace exact text in a file. The file must have been read first. `old_string` must match the file byte for byte, including its leading whitespace \u{2014} but WITHOUT the `<line number>\u{2502}` prefixes that read_file adds for display.";

pub struct EditFile;

/// What an edit asks for.
#[derive(Debug)]
pub struct EditRequest {
    pub path: String,
    pub old: String,
    pub new: String,
    pub replace_all: bool,
}

/// An edit that may be made.
#[derive(Debug)]
pub struct EditJob {
    request: EditRequest,
    path: String,
}

impl EditJob {
    /// What the edit asks for.
    pub closed spec fn asked(&self) -> EditRequest {
        self.request
    }

    /// The file that is edited.
    pub closed spec fn at(&self) -> Seq<char> {
        self.path@
    }

    pub fn path(&self) -> (r: &str)
        ensures
            r@ == self.at(),
    {
        &self.path
    }
}

/// Why an edit was refused, in words for the model.
pub open spec fn edit_error_text(e: EditError, path: Seq<char>) -> Seq<char> {
    match e {
        EditError::NotFound => "old_string not found in "@ + path
            + ". It must match the file exactly, including indentation and line breaks, and must not include the `<line number>\u{2502}` prefixes that read_file adds for display."@,
        EditError::Ambiguous(n) => "old_string appears "@ + text::decimal(n as nat) + " times in "@
            + path
            + ". Include more surrounding context to make it unique, or set replace_all=true."@,
    }
}

/// The remark on an edit that was not quite right.
pub open spec fn recovery_text(r: Option<Recovery>) -> Seq<char> {
    match r {
        None => Seq::empty(),
        Some(Recovery::Prefixes) =>
            " (line-number prefixes were stripped from old_string; match the file exactly next time)"@,
        Some(Recovery::Indentation) =>
            " (old_string matched apart from leading whitespace; match the file exactly next time)"@,
    }
}

/// What is reported of an applied edit.
pub open spec fn is_edit_outcome(
    o: ToolOutcome,
    shown: Seq<char>,
    content: Seq<char>,
    plan: PlanView,
) -> bool {
    let stats = util::line_changes(content, plan.updated, 0);
    &&& !o.is_error
    &&& o.content@ == "Edited "@ + shown + ": "@ + counted(
        plan.matches,
        " replacement"@,
        " replacements"@,
    ) + " ("@ + change_text(
        util::count_kind(stats, util::DiffKind::Added),
        util::count_kind(stats, util::DiffKind::Removed),
    ) + ")"@ + recovery_text(plan.recovery)
    &&& shows_change(o.display, shown, content, plan.updated)
}

/// The arguments that `edit_file` advertises.
pub open spec fn edit_file_params() -> Seq<ParamView> {
    seq![
        param(
            "path"@,
            "string"@,
            "File to edit."@,
        ),
        param(
            "old_string"@,
            "string"@,
            "Exact text to replace, including indentation. Must appear exactly once unless `replace_all` is true."@,
        ),
        param(
            "new_string"@,
            "string"@,
            "Replacement text."@,
        ),
        param(
            "replace_all"@,
            "boolean"@,
            "Replace every occurrence instead of requiring exactly one. Defaults to false."@,
        ),
    ]
}

impl EditFile {
    pub fn name(&self) -> (r: &'static str)
        ensures
            r@ == "edit_file"@,
    {
        "edit_file"
    }

    pub fn kind(&self) -> (r: ToolKind)
        ensures
            r == ToolKind::Edit,
    {
        ToolKind::Edit
    }

    /// The tool as it is advertised.
    pub fn info(&self) -> (r: ToolInfo)
        ensures
            r.name@ == "edit_file"@,
            r.kind == ToolKind::Edit,
            r.description@ == EDIT_FILE_DESCRIPTION@,
            is_schema(*r.parameters, edit_file_params(), seq!["path"@, "old_string"@, "new_string"@]),
    {
        let params = vec![
            Param {
                name: "path",
                ty: "string",
                description: "File to edit.",
                choices: Vec::new(),
            },
            Param {
                name: "old_string",
                ty: "string",
                description: "Exact text to replace, including indentation. Must appear exactly once unless `replace_all` is true.",
                choices: Vec::new(),
            },
            Param {
                name: "new_string",
                ty: "string",
                description: "Replacement text.",
                choices: Vec::new(),
            },
            Param {
                name: "replace_all",
                ty: "boolean",
                description: "Replace every occurrence instead of requiring exactly one. Defaults to false.",
                choices: Vec::new(),
            },
        ];
        let required: Vec<&'static str> = vec!["path", "old_string", "new_string"];
        assert(param_views(params@) =~~= edit_file_params());
        assert(str_views(required@) =~= seq!["path"@, "old_string"@, "new_string"@]);
        ToolInfo::new("edit_file", EDIT_FILE_DESCRIPTION, schema(params, required), ToolKind::Edit)
    }

    pub fn summarize(&self, args: &Json) -> (r: String)
        ensures
            r@ == call_text("Edit"@, text_or(*args, "path"@, ""@)),
    {
        call_line("Edit", &arg_str_or(args, "path", ""))
    }

    /// What a call asks for. An edit that would change nothing is refused.
    pub fn request(&self, args: &Json) -> (r: Result<EditRequest, ToolOutcome>)
        ensures
            match (required_text(*args, "path"@), required_text(*args, "old_string"@)) {
                (Err(e), _) => r matches Err(o) && is_failure(o, e),
                (Ok(_), Err(e)) => r matches Err(o) && is_failure(o, e),
                (Ok(p), Ok(old)) => if old == text_or(*args, "new_string"@, ""@) {
                    r matches Err(o) && is_failure(
                        o,
                        "old_string and new_string are identical; nothing to do"@,
                    )
                } else {
                    r matches Ok(v) && v.path@ == p && v.old@ == old && v.new@ == text_or(
                        *args,
                        "new_string"@,
                        ""@,
                    ) && v.replace_all == flag_arg(*args, "replace_all"@)
                },
            },
    {
        let path = match arg_str(args, "path") {
            Ok(p) => p,
            Err(e) => {
                return Err(ToolOutcome::error(&e));
            },
        };
        let old = match arg_str(args, "old_string") {
            Ok(p) => p,
            Err(e) => {
                return Err(ToolOutcome::error(&e));
            },
        };
        let new = arg_str_or(args, "new_string", "");
        let replace_all = arg_bool(args, "replace_all");
        if text::same(&old, &new) {
            return Err(
                ToolOutcome::error("old_string and new_string are identical; nothing to do"),
            );
        }
        Ok(EditRequest { path, old, new, replace_all })
    }

    /// Leave to make an edit, or why it is refused. `probes` tells of each of the
    /// [`probe_paths`]; `key` and `now` are of the file that they lead to.
    pub fn permit(
        &self,
        ctx: &ToolContext,
        request: EditRequest,
        probes: &Vec<Probe>,
        key: &str,
        now: Option<FileStamp>,
    ) -> (r: Result<EditJob, ToolOutcome>)
        requires
            ctx.wf(),
            util::lies_within(ctx.workspace@, util::resolved(ctx.workspace@, request.path@))
                ==> probes@.len() == probe_chain(
                util::resolved(ctx.workspace@, request.path@),
            ).len(),
        ensures
            match changeable(*ctx, request.path@, probes@, key@, now) {
                Ok(p) => r matches Ok(job) && job.at() == p && job.asked() == request,
                Err(e) => r matches Err(o) && is_failure(o, e),
            },
    {
        match permit(ctx, &request.path, probes, key, now) {
            Ok(path) => Ok(EditJob { request, path }),
            Err(o) => Err(o),
        }
    }

    /// The new text of a file, or why the edit is refused.
    pub fn apply(&self, job: &EditJob, content: &str) -> (r: Result<EditPlan, ToolOutcome>)
        requires
            content@.len() < usize::MAX,
        ensures
            match planned(
                content@,
                job.asked().old@,
                job.asked().new@,
                job.asked().replace_all,
            ) {
                Ok(p) => r matches Ok(plan) && plan@ == p,
                Err(e) => r matches Err(o) && is_failure(o, edit_error_text(e, job.at())),
            },
    {
        let request = &job.request;
        let path = &job.path;
        match plan_edit(content, &request.old, &request.new, request.replace_all) {
            Ok(plan) => Ok(plan),
            Err(EditError::NotFound) => {
                let mut e = "old_string not found in ".to_owned();
                e.append(path);
                e.append(
                    ". It must match the file exactly, including indentation and line breaks, and must not include the `<line number>\u{2502}` prefixes that read_file adds for display.",
                );
                Err(ToolOutcome::error(&e))
            },
            Err(EditError::Ambiguous(n)) => {
                let mut e = "old_string appears ".to_owned();
                e.append(&text::number(n as u64));
                e.append(" times in ");
                e.append(path);
                e.append(
                    ". Include more surrounding context to make it unique, or set replace_all=true.",
                );
                Err(ToolOutcome::error(&e))
            },
        }
    }

    /// What is reported once the edit was written.
    pub fn run(&self, workspace: &str, job: &EditJob, content: &str, plan: &EditPlan) -> (r:
        ToolOutcome)
        ensures
            is_edit_outcome(r, util::shown_path(workspace@, job.at()), content@, plan@),
    {
        let shown = util::display_path(workspace, &job.path);
        let (display, added, removed) = change_display(&shown, content, &plan.updated);
        let mut out = "Edited ".to_owned();
        out.append(&shown);
        out.append(": ");
        out.append(&count_text(plan.matches, " replacement", " replacements"));
        out.append(" (");
        out.append(&change_line(added, removed));
        out.append(")");
        match plan.recovery {
            None => {
                assert(out@ + Seq::<char>::empty() =~= out@);
            },
            Some(Recovery::Prefixes) => {
                out.append(
                    " (line-number prefixes were stripped from old_string; match the file exactly next time)",
                );
            },
            Some(Recovery::Indentation) => {
                out.append(
                    " (old_string matched apart from leading whitespace; match the file exactly next time)",
                );
            },
        }
        ToolOutcome::ok(&out).with_display(display)
    }
}

// ---------------------------------------------------------------------------
// list_files
// ---------------------------------------------------------------------------

pub const LIST_FILES_DESCRIPTION: &'static str = "List the immediate contents of a directory. Directories are suffixed with '/'. For recursive search use `glob`.";

pub struct ListFiles;

/// Whether an entry is listed as a directory.
pub open spec fn listed_as_dir(name: Seq<char>) -> bool {
    name.len() > 0 && name.last() == '/'
}

/// Whether one entry is listed strictly before another: directories first, then
/// by name, whatever the case of its letters.
pub open spec fn listed_before(a: Seq<char>, b: Seq<char>) -> bool {
    if listed_as_dir(a) != listed_as_dir(b) {
        listed_as_dir(a)
    } else {
        precedes(lowercase(a), lowercase(b))
    }
}

/// Entries in order, with one more put in its place: behind those that do not
/// come after it.
pub open spec fn entry_inserted(sorted: Seq<Seq<char>>, name: Seq<char>) -> Seq<Seq<char>>
    decreases sorted.len(),
{
    if sorted.len() == 0 || !listed_before(name, sorted.last()) {
        sorted.push(name)
    } else {
        entry_inserted(sorted.drop_last(), name).push(sorted.last())
    }
}

/// The entries of a directory in the order in which they are listed.
pub open spec fn listing(names: Seq<Seq<char>>) -> Seq<Seq<char>>
    decreases names.len(),
{
    if names.len() == 0 {
        Seq::empty()
    } else {
        entry_inserted(listing(names.drop_last()), names.last())
    }
}

/// An entry of a directory.
#[derive(Debug)]
pub struct DirEntry {
    pub name: String,
    pub is_dir: bool,
}

/// The name of an entry as it is listed: a directory ends with a slash.
pub open spec fn entry_name(e: DirEntry) -> Seq<char> {
    if e.is_dir {
        e.name@ + "/"@
    } else {
        e.name@
    }
}

fn is_listed_before(a: &str, b: &str) -> (r: bool)
    ensures
        r == listed_before(a@, b@),
{
    proof {
        reveal_strlit("/");
    }
    let ad = ends_with_slash(a);
    let bd = ends_with_slash(b);
    if ad != bd {
        ad
    } else {
        comes_before(&to_lower(a), &to_lower(b))
    }
}

fn ends_with_slash(s: &str) -> (r: bool)
    ensures
        r == listed_as_dir(s@),
{
    let v = text::chars_of(s);
    v.len() > 0 && v[v.len() - 1] == '/'
}

/// The entries of a directory in the order in which they are listed.
fn list_entries(entries: &Vec<DirEntry>) -> (r: Vec<String>)
    ensures
        text::views(r@) == listing(entries@.map_values(|e: DirEntry| entry_name(e))),
{
    let ghost all = entries@.map_values(|e: DirEntry| entry_name(e));
    let mut out: Vec<String> = Vec::new();
    let mut i: usize = 0;
    assert(text::views(out@) =~= Seq::<Seq<char>>::empty());
    while i < entries.len()
        invariant
            i <= entries@.len(),
            all == entries@.map_values(|e: DirEntry| entry_name(e)),
            text::views(out@) == listing(all.take(i as int)),
        decreases entries.len() - i,
    {
        let mut name = entries[i].name.clone();
        if entries[i].is_dir {
            name.append("/");
        }
        proof {
            assert(all.take(i + 1).drop_last() =~= all.take(i as int));
            assert(all[i as int] == name@);
        }
        insert_entry(&mut out, name);
        i += 1;
    }
    assert(all.take(all.len() as int) =~= all);
    out
}

fn insert_entry(sorted: &mut Vec<String>, name: String)
    ensures
        text::views(final(sorted)@) == entry_inserted(text::views(old(sorted)@), name@),
{
    let ghost s = text::views(sorted@);
    let ghost c = name@;
    let mut j: usize = sorted.len();
    assert(s.take(j as int) =~= s);
    assert(entry_inserted(s.take(j as int), c) + s.skip(j as int) =~= entry_inserted(s, c));
    while j > 0 && is_listed_before(&name, &sorted[j - 1])
        invariant
            j <= sorted@.len(),
            s == text::views(sorted@),
            c == name@,
            entry_inserted(s.take(j as int), c) + s.skip(j as int) == entry_inserted(s, c),
        decreases j,
    {
        proof {
            let t = s.take(j as int);
            assert(t.last() == sorted@[j - 1]@);
            assert(t.drop_last() =~= s.take(j - 1));
            let ins = entry_inserted(s.take(j - 1), c);
            assert(ins.push(t.last()) + s.skip(j as int) =~= ins + s.skip(j - 1));
        }
        j -= 1;
    }
    proof {
        let t = s.take(j as int);
        if j > 0 {
            assert(t.last() == sorted@[j - 1]@);
        }
        assert(entry_inserted(t, c) == t.push(c));
    }
    sorted.insert(j, name);
    assert(text::views(sorted@) =~= s.take(j as int).push(c) + s.skip(j as int));
}

/// The text of a listing of a directory.
pub open spec fn list_body(dir: Seq<char>, names: Seq<Seq<char>>) -> Seq<char> {
    if names.len() == 0 {
        dir + " is empty\n"@
    } else {
        text::joined(names, "\n"@) + "\n"@
    }
}

/// The arguments that `list_files` advertises.
pub open spec fn list_files_params() -> Seq<ParamView> {
    seq![
        param(
            "path"@,
            "string"@,
            "Directory to list. Defaults to the workspace root."@,
        ),
    ]
}

impl ListFiles {
    pub fn name(&self) -> (r: &'static str)
        ensures
            r@ == "list_files"@,
    {
        "list_files"
    }

    pub fn kind(&self) -> (r: ToolKind)
        ensures
            r == ToolKind::Read,
    {
        ToolKind::Read
    }

    /// The tool as it is advertised.
    pub fn info(&self) -> (r: ToolInfo)
        ensures
            r.name@ == "list_files"@,
            r.kind == ToolKind::Read,
            r.description@ == LIST_FILES_DESCRIPTION@,
            is_schema(
                *r.parameters,
                list_files_params(),
                Seq::<Seq<char>>::empty(),
            ),
    {
        let params = vec![
            Param {
                name: "path",
                ty: "string",
                description: "Directory to list. Defaults to the workspace root.",
                choices: Vec::new(),
            },
        ];
        let required: Vec<&'static str> = Vec::new();
        assert(param_views(params@) =~~= list_files_params());
        assert(str_views(required@) =~= Seq::<Seq<char>>::empty());
        ToolInfo::new("list_files", LIST_FILES_DESCRIPTION, schema(params, required), ToolKind::Read)
    }

    pub fn summarize(&self, args: &Json) -> (r: String)
        ensures
            r@ == call_text("List"@, text_or(*args, "path"@, "."@)),
    {
        call_line("List", &arg_str_or(args, "path", "."))
    }

    /// The directory that a call asks to list.
    pub fn target(&self, args: &Json) -> (r: String)
        ensures
            r@ == text_or(*args, "path"@, "."@),
    {
        arg_str_or(args, "path", ".")
    }

    /// The listing of the directory `dir`, which holds `entries`.
    pub fn run(&self, workspace: &str, dir: &str, entries: &Vec<DirEntry>) -> (r: ToolOutcome)
        ensures
            ({
                let names = listing(entries@.map_values(|e: DirEntry| entry_name(e)));
                &&& !r.is_error
                &&& r.content@ == util::truncated(
                    list_body(dir@, names),
                    MAX_SEARCH_BYTES as nat,
                )
                &&& text::opt_view(r.display.path) == Some(util::shown_path(workspace@, dir@))
                &&& text::opt_view(r.display.summary) == Some(
                    counted(names.len(), " entry"@, " entries"@),
                )
                &&& r.display.diff_stats is None
                &&& r.display.diff@.len() == 0
            }),
    {
        let names = list_entries(entries);
        assert(text::views(names@).len() == names@.len());
        let body = if names.len() == 0 {
            let mut b = dir.to_owned();
            b.append(" is empty\n");
            b
        } else {
            let mut b = text::join(&names, "\n");
            b.append("\n");
            b
        };
        ToolOutcome::ok(&util::truncate_text(&body, MAX_SEARCH_BYTES)).with_display(
            ToolDisplay {
                path: Some(util::display_path(workspace, dir)),
                diff_stats: None,
                diff: Vec::new(),
                summary: Some(count_text(names.len(), " entry", " entries")),
            },
        )
    }
}

proof fn lemma_entry_inserted(sorted: Seq<Seq<char>>, name: Seq<char>)
    ensures
        entry_inserted(sorted, name).to_multiset() == sorted.to_multiset().insert(name),
    decreases sorted.len(),
{
    broadcast use vstd::seq_lib::group_to_multiset_ensures;

    if !(sorted.len() == 0 || !listed_before(name, sorted.last())) {
        let front = sorted.drop_last();
        lemma_entry_inserted(front, name);
        assert(front.push(sorted.last()) =~= sorted);
        assert(front.to_multiset().insert(name).insert(sorted.last()) =~= front.to_multiset().insert(
            sorted.last(),
        ).insert(name));
    }
}

/// A listing shows each entry, and nothing else.
pub proof fn law_listing_is_complete(names: Seq<Seq<char>>)
    ensures
        listing(names).to_multiset() == names.to_multiset(),
    decreases names.len(),
{
    broadcast use vstd::seq_lib::group_to_multiset_ensures;

    if names.len() > 0 {
        law_listing_is_complete(names.drop_last());
        lemma_entry_inserted(listing(names.drop_last()), names.last());
        assert(names.drop_last().push(names.last()) =~= names);
    } else {
        assert(names =~= Seq::<Seq<char>>::empty());
    }
}

/// In a listing no file stands before a directory.
pub proof fn law_directories_come_first(names: Seq<Seq<char>>)
    ensures
        forall|i: int, j: int|
            0 <= i < j < listing(names).len() && listed_as_dir(#[trigger] listing(names)[j])
                ==> listed_as_dir(#[trigger] listing(names)[i]),
    decreases names.len(),
{
    if names.len() > 0 {
        law_directories_come_first(names.drop_last());
        lemma_insert_dirs_first(listing(names.drop_last()), names.last());
    }
}

spec fn dirs_first(s: Seq<Seq<char>>) -> bool {
    forall|i: int, j: int|
        0 <= i < j < s.len() && listed_as_dir(#[trigger] s[j]) ==> listed_as_dir(#[trigger] s[i])
}

proof fn lemma_insert_dirs_first(sorted: Seq<Seq<char>>, name: Seq<char>)
    requires
        dirs_first(sorted),
    ensures
        dirs_first(entry_inserted(sorted, name)),
        entry_inserted(sorted, name).len() > 0,
        forall|i: int|
            0 <= i < entry_inserted(sorted, name).len() ==> (#[trigger] entry_inserted(
                sorted,
                name,
            )[i] == name || sorted.contains(entry_inserted(sorted, name)[i])),
    decreases sorted.len(),
{
    let r = entry_inserted(sorted, name);
    if sorted.len() == 0 || !listed_before(name, sorted.last()) {
        assert forall|i: int, j: int|
            0 <= i < j < r.len() && listed_as_dir(#[trigger] r[j]) implies listed_as_dir(
            #[trigger] r[i],
        ) by {
            if j == sorted.len() {
                let last = sorted[sorted.len() - 1];
                assert(listed_as_dir(last));
                if i < sorted.len() - 1 {
                    assert(listed_as_dir(sorted[i]));
                }
            } else {
                assert(r[i] == sorted[i] && r[j] == sorted[j]);
            }
        }
        assert forall|i: int| 0 <= i < r.len() implies #[trigger] r[i] == name || sorted.contains(
            r[i],
        ) by {
            if i < sorted.len() {
                assert(sorted[i] == r[i]);
            }
        }
    } else {
        let front = sorted.drop_last();
        assert(dirs_first(front)) by {
            assert forall|i: int, j: int|
                0 <= i < j < front.len() && listed_as_dir(#[trigger] front[j]) implies listed_as_dir(
                #[trigger] front[i],
            ) by {
                assert(front[i] == sorted[i] && front[j] == sorted[j]);
            }
        }
        lemma_insert_dirs_first(front, name);
        let f = entry_inserted(front, name);
        assert forall|i: int, j: int|
            0 <= i < j < r.len() && listed_as_dir(#[trigger] r[j]) implies listed_as_dir(
            #[trigger] r[i],
        ) by {
            if j == f.len() {
                assert(f[i] == name || front.contains(f[i]));
                if f[i] != name {
                    let k = choose|k: int| 0 <= k < front.len() && front[k] == f[i];
                    assert(sorted[k] == f[i]);
                    assert(listed_as_dir(sorted[sorted.len() - 1]));
                }
            } else {
                assert(r[i] == f[i] && r[j] == f[j]);
            }
        }
        assert forall|i: int| 0 <= i < r.len() implies #[trigger] r[i] == name || sorted.contains(
            r[i],
        ) by {
            if i < f.len() {
                assert(f[i] == name || front.contains(f[i]));
                if f[i] != name {
                    let k = choose|k: int| 0 <= k < front.len() && front[k] == f[i];
                    assert(sorted[k] == f[i]);
                }
            } else {
                assert(sorted[sorted.len() - 1] == r[i]);
            }
        }
    }
}

} // verus!
