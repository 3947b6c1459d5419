//! Which setting holds, and which files tell of a workspace.
use vstd::prelude::*;
use crate::config::{
    allow_rules, ask_rules, chosen, chosen_mode, compaction_point, deny_rules, has_path, is_merged,
    is_nan, layered, memory_found, memory_paths, mode_named, model_entry, model_table, opt_map,
    slug, slug_char, threshold, ConfigFile, PermissionMode,
};
use crate::laws::paths::{from_root, law_directories_hold_their_files, lead_down};
use crate::laws::text::is_blank;
use crate::table::list_at;
use crate::text;
use crate::util::{ancestors, below};

verus! {

/// What a later layer sets holds, and what it does not set stays as it was.
pub proof fn law_later_layers_win(base: ConfigFile, next: ConfigFile, r: ConfigFile)
    requires
        is_merged(base, next, r),
    ensures
        next.model is Some ==> r.model == next.model,
        next.model is None ==> r.model == base.model,
        next.base_url is Some ==> r.base_url == next.base_url,
        next.base_url is None ==> r.base_url == base.base_url,
        next.max_tokens is Some ==> r.max_tokens == next.max_tokens,
        next.max_tokens is None ==> r.max_tokens == base.max_tokens,
        next.temperature is Some ==> r.temperature == next.temperature,
        next.temperature is None ==> r.temperature == base.temperature,
        next.reasoning_effort is Some ==> r.reasoning_effort == next.reasoning_effort,
        next.reasoning_effort is None ==> r.reasoning_effort == base.reasoning_effort,
        next.permission_mode is Some ==> r.permission_mode == next.permission_mode,
        next.permission_mode is None ==> r.permission_mode == base.permission_mode,
        next.auto_compact_threshold is Some ==> r.auto_compact_threshold
            == next.auto_compact_threshold,
        next.auto_compact_threshold is None ==> r.auto_compact_threshold
            == base.auto_compact_threshold,
        next.max_tool_iterations is Some ==> r.max_tool_iterations == next.max_tool_iterations,
        next.max_tool_iterations is None ==> r.max_tool_iterations == base.max_tool_iterations,
        next.theme is Some ==> r.theme == next.theme,
        next.theme is None ==> r.theme == base.theme,
{
}

/// Rules of every kind accumulate: each that a layer has is there, in order, and
/// none comes from elsewhere.
pub proof fn law_rules_accumulate(base: ConfigFile, next: ConfigFile, r: ConfigFile)
    requires
        is_merged(base, next, r),
        base.permissions is Some,
        next.permissions is Some,
    ensures
        r.permissions matches Some(p) && p.allow@ == base.permissions->0.allow@
            + next.permissions->0.allow@ && p.deny@ == base.permissions->0.deny@
            + next.permissions->0.deny@ && p.ask@ == base.permissions->0.ask@
            + next.permissions->0.ask@,
{
    assert(allow_rules(r.permissions) == r.permissions->0.allow@);
    assert(deny_rules(r.permissions) == r.permissions->0.deny@);
    assert(ask_rules(r.permissions) == r.permissions->0.ask@);
}

/// A server of a later layer takes the place of one of the same name, and any
/// other stays. Hooks of both layers run.
pub proof fn law_servers_and_hooks_are_layered(
    base: ConfigFile,
    next: ConfigFile,
    r: ConfigFile,
    name: Seq<char>,
)
    requires
        is_merged(base, next, r),
    ensures
        next.mcp_servers matches Some(t) ==> (t@.contains_key(name) ==> opt_map(
            r.mcp_servers,
        ).contains_key(name) && opt_map(r.mcp_servers)[name] == t@[name]),
        base.mcp_servers matches Some(t) ==> (t@.contains_key(name) && !opt_map(
            next.mcp_servers,
        ).contains_key(name) ==> opt_map(r.mcp_servers).contains_key(name) && opt_map(
            r.mcp_servers,
        )[name] == t@[name]),
        opt_map(r.mcp_servers).contains_key(name) ==> opt_map(base.mcp_servers).contains_key(name)
            || opt_map(next.mcp_servers).contains_key(name),
        list_at(opt_map(r.hooks), name) == list_at(opt_map(base.hooks), name) + list_at(
            opt_map(next.hooks),
            name,
        ),
{
}

/// The command line wins over the environment, that over the files, and those
/// over the default. An empty variable counts as unset.
pub proof fn law_sources_have_an_order(
    cli: Option<String>,
    env: Option<String>,
    file: Option<String>,
    default: Seq<char>,
)
    ensures
        cli matches Some(t) ==> chosen(cli, env, file, default) == t@,
        cli is None ==> (env matches Some(t) ==> (t@.len() > 0 ==> chosen(cli, env, file, default)
            == t@)),
        cli is None && (env is None || env->0@.len() == 0) ==> {
            &&& file matches Some(t) ==> chosen(cli, env, file, default) == t@
            &&& file is None ==> chosen(cli, env, file, default) == default
        },
{
}

/// The mode comes from the command line, else from the files, and is the default
/// one where neither names one.
pub proof fn law_modes_have_an_order(cli: Option<PermissionMode>, file: Option<String>)
    ensures
        cli matches Some(m) ==> chosen_mode(cli, file) == m,
        cli is None && file is None ==> chosen_mode(cli, file) == PermissionMode::Default,
        cli is None ==> (file matches Some(s) ==> (mode_named(text::trimmed(s@)) matches Some(m)
            ==> chosen_mode(cli, file) == m)),
        cli is None ==> (file matches Some(s) ==> (mode_named(text::trimmed(s@)) is None
            ==> chosen_mode(cli, file) == PermissionMode::Default)),
{
}

/// Each mode has its name, and some have another.
pub proof fn law_modes_go_by_name()
    ensures
        mode_named("default"@) == Some(PermissionMode::Default),
        mode_named("acceptEdits"@) == Some(PermissionMode::AcceptEdits),
        mode_named("accept-edits"@) == Some(PermissionMode::AcceptEdits),
        mode_named("plan"@) == Some(PermissionMode::Plan),
        mode_named("bypassPermissions"@) == Some(PermissionMode::BypassPermissions),
        mode_named("bypass-permissions"@) == Some(PermissionMode::BypassPermissions),
        mode_named("yolo"@) == Some(PermissionMode::BypassPermissions),
        forall|s: Seq<char>|
            (#[trigger] mode_named(s)) is Some ==> s == "default"@ || s == "acceptEdits"@ || s
                == "accept-edits"@ || s == "plan"@ || s == "bypassPermissions"@ || s
                == "bypass-permissions"@ || s == "yolo"@,
{
    reveal_strlit("default");
    reveal_strlit("acceptEdits");
    reveal_strlit("accept-edits");
    reveal_strlit("plan");
    reveal_strlit("bypassPermissions");
    reveal_strlit("bypass-permissions");
    reveal_strlit("yolo");
    assert("default"@.len() == 7 && "acceptEdits"@.len() == 11 && "accept-edits"@.len() == 12);
    assert("plan"@.len() == 4 && "bypassPermissions"@.len() == 17 && "bypass-permissions"@.len()
        == 18 && "yolo"@.len() == 4);
    assert("plan"@[0] == 'p' && "yolo"@[0] == 'y');
}

/// A model that is known has its own window, and any other has the smallest.
pub proof fn law_windows_belong_to_their_models(id: Seq<char>, i: int)
    ensures
        0 <= i < 9 && model_table()[i].0 == id && (forall|j: int|
            0 <= j < i ==> (#[trigger] model_table()[j]).0 != id) ==> model_entry(
            model_table(),
            id,
        ) == model_table()[i],
        (forall|j: int| 0 <= j < 9 ==> (#[trigger] model_table()[j]).0 != id) ==> model_entry(
            model_table(),
            id,
        ) == ("unknown"@, 131_072u64, false),
{
    lemma_entry(model_table(), id, i);
}

proof fn lemma_entry(table: Seq<(Seq<char>, u64, bool)>, id: Seq<char>, i: int)
    ensures
        0 <= i < table.len() && table[i].0 == id && (forall|j: int|
            0 <= j < i ==> (#[trigger] table[j]).0 != id) ==> model_entry(table, id) == table[i],
        (forall|j: int| 0 <= j < table.len() ==> (#[trigger] table[j]).0 != id) ==> model_entry(
            table,
            id,
        ) == ("unknown"@, 131_072u64, false),
    decreases table.len(),
{
    if table.len() > 0 {
        let rest = table.skip(1);
        lemma_entry(rest, id, i - 1);
        if 0 < i < table.len() && table[i].0 == id && (forall|j: int|
            0 <= j < i ==> (#[trigger] table[j]).0 != id) {
            assert(table[0].0 != id);
            assert(rest[i - 1] == table[i]);
            assert forall|j: int| 0 <= j < i - 1 implies (#[trigger] rest[j]).0 != id by {
                assert(rest[j] == table[j + 1]);
            }
        }
        if forall|j: int| 0 <= j < table.len() ==> (#[trigger] table[j]).0 != id {
            assert(table[0].0 != id);
            assert forall|j: int| 0 <= j < rest.len() implies (#[trigger] rest[j]).0 != id by {
                assert(rest[j] == table[j + 1]);
            }
        }
    }
}

/// A fraction that is set holds, between a tenth and 98 percent of the window;
/// where none is set it is 85 percent.
pub proof fn law_thresholds_are_kept_in_bounds(bits: u32)
    ensures
        0x3dcc_cccd <= bits <= 0x3f7a_e148 ==> threshold(Some(bits)) == bits,
        bits < 0x3dcc_cccd ==> threshold(Some(bits)) == 0x3dcc_cccd,
        0x3f7a_e148 < bits <= 0x7f80_0000 ==> threshold(Some(bits)) == 0x3f7a_e148,
        threshold(None) == 0x3f59_999a,
{
}

/// Half a window is reached at half of it, and a quarter at a quarter.
pub proof fn law_fractions_of_the_window(window: nat)
    ensures
        compaction_point(window, 0x3f00_0000) == window / 2,
        compaction_point(window, 0x3e80_0000) == window / 4,
        compaction_point(window, 0x3f40_0000) == window * 3 / 4,
{
    vstd::arithmetic::power2::lemma2_to64();
    assert(!is_nan(0x3f00_0000u32) && !is_nan(0x3e80_0000u32) && !is_nan(0x3f40_0000u32));
    assert(compaction_point(window, 0x3f00_0000) == window * 0x80_0000 / 0x100_0000);
    assert(compaction_point(window, 0x3e80_0000) == window * 0x80_0000 / 0x200_0000);
    assert(compaction_point(window, 0x3f40_0000) == window * 0xc0_0000 / 0x100_0000);
}

// ---------------------------------------------------------------------------
// Files
// ---------------------------------------------------------------------------

/// Whether a name can stand in a directory name as it is, without a dash at its
/// ends.
pub open spec fn is_slug_name(name: Seq<char>) -> bool {
    &&& name.len() > 0
    &&& name[0] != '-'
    &&& name[name.len() - 1] != '-'
    &&& forall|i: int|
        0 <= i < name.len() ==> ('a' <= #[trigger] name[i] <= 'z') || ('A' <= name[i] <= 'Z') || (
        '0' <= name[i] <= '9') || name[i] == '.' || name[i] == '-' || name[i] == '_'
}

/// The directory of a workspace is named after it, with dashes for slashes.
pub proof fn law_workspaces_have_their_directories(ns: Seq<Seq<char>>)
    requires
        ns.len() > 0,
        forall|i: int| 0 <= i < ns.len() ==> is_slug_name(#[trigger] ns[i]),
    ensures
        slug(from_root(ns)) == text::joined(ns, seq!['-']),
{
    let f = |c: char| slug_char(c);
    let path = from_root(ns);
    let mapped = path.map_values(f);
    let body = text::joined(ns, seq!['-']);
    lemma_slugged(ns);
    assert(mapped =~= seq!['-'] + body) by {
        assert(text::joined(ns, seq!['/']).map_values(f) == body);
        assert forall|i: int| 0 <= i < mapped.len() implies mapped[i] == (seq!['-'] + body)[i] by {
            if i > 0 {
                assert(mapped[i] == text::joined(ns, seq!['/']).map_values(f)[i - 1]);
            }
        }
    }
    assert(mapped.skip(1) =~= body);
    lemma_ends(ns);
    assert(crate::config::no_leading_dash(mapped) == crate::config::no_leading_dash(body));
}

proof fn lemma_slugged(ns: Seq<Seq<char>>)
    requires
        ns.len() > 0,
        forall|i: int| 0 <= i < ns.len() ==> is_slug_name(#[trigger] ns[i]),
    ensures
        text::joined(ns, seq!['/']).map_values(|c: char| slug_char(c)) == text::joined(
            ns,
            seq!['-'],
        ),
        text::joined(ns, seq!['/']).len() == text::joined(ns, seq!['-']).len(),
    decreases ns.len(),
{
    let f = |c: char| slug_char(c);
    let last = ns.last();
    assert(is_slug_name(ns[ns.len() - 1]));
    assert(last.map_values(f) =~= last);
    if ns.len() > 1 {
        let front = ns.drop_last();
        assert forall|i: int| 0 <= i < front.len() implies is_slug_name(#[trigger] front[i]) by {
            assert(is_slug_name(ns[i]));
        }
        lemma_slugged(front);
        let a = text::joined(front, seq!['/']);
        let b = text::joined(front, seq!['-']);
        assert(text::joined(ns, seq!['/']) == a + seq!['/'] + last);
        assert(text::joined(ns, seq!['-']) == b + seq!['-'] + last);
        assert((a + seq!['/'] + last).map_values(f) =~= a.map_values(f) + seq!['-']
            + last.map_values(f));
    }
}

proof fn lemma_ends(ns: Seq<Seq<char>>)
    requires
        ns.len() > 0,
        forall|i: int| 0 <= i < ns.len() ==> is_slug_name(#[trigger] ns[i]),
    ensures
        ({
            let body = text::joined(ns, seq!['-']);
            &&& body.len() > 0
            &&& body[0] != '-'
            &&& body.last() != '-'
        }),
    decreases ns.len(),
{
    assert(is_slug_name(ns[ns.len() - 1]));
    if ns.len() > 1 {
        let front = ns.drop_last();
        assert forall|i: int| 0 <= i < front.len() implies is_slug_name(#[trigger] front[i]) by {
            assert(is_slug_name(ns[i]));
        }
        lemma_ends(front);
    }
}

/// A path leads through each directory above it, from the innermost to the root.
pub proof fn law_every_directory_above_counts(ns: Seq<Seq<char>>)
    requires
        lead_down(ns),
    ensures
        ({
            let up = ancestors(from_root(ns), None);
            &&& up.len() == ns.len() + 1
            &&& forall|k: int|
                0 <= k <= ns.len() ==> #[trigger] up[k] == from_root(ns.take(ns.len() - k))
        }),
    decreases ns.len(),
{
    let up = ancestors(from_root(ns), None);
    assert(ns.take(ns.len() as int) =~= ns);
    if ns.len() == 0 {
        let some: Seq<char> = seq!['x'];
        let one = ns.push(some);
        assert forall|i: int| 0 <= i < one.len() implies {
            &&& (#[trigger] one[i]).len() > 0
            &&& one[i] != seq!['.']
            &&& one[i] != seq!['.', '.']
            &&& !one[i].contains('/')
        } by {
            assert(one[i][0] == 'x');
        }
        law_directories_hold_their_files(ns, some);
        assert(ns =~= Seq::<Seq<char>>::empty());
        assert(up =~= seq![from_root(ns)]);
    } else {
        let front = ns.drop_last();
        assert(front.push(ns.last()) =~= ns);
        law_directories_hold_their_files(front, ns.last());
        assert forall|i: int| 0 <= i < front.len() implies {
            &&& (#[trigger] front[i]).len() > 0
            &&& front[i] != seq!['.']
            &&& front[i] != seq!['.', '.']
            &&& !front[i].contains('/')
        } by {
            assert(ns[i] == front[i]);
        }
        law_every_directory_above_counts(front);
        let rest = ancestors(from_root(front), None);
        assert(up =~= seq![from_root(ns)] + rest);
        assert forall|k: int| 0 <= k <= ns.len() implies #[trigger] up[k] == from_root(
            ns.take(ns.len() - k),
        ) by {
            if k > 0 {
                assert(up[k] == rest[k - 1]);
                assert(front.take(front.len() - (k - 1)) =~= ns.take(ns.len() - k));
            }
        }
    }
}

/// The user's own instructions come first, then those of each directory, the
/// outermost first and the workspace's own last.
pub proof fn law_the_nearest_instructions_come_last(
    workspace: Seq<char>,
    home: Option<Seq<char>>,
)
    ensures
        ({
            let up = ancestors(workspace, home);
            let paths = memory_paths(workspace, home);
            let own: int = if home is Some {
                1
            } else {
                0
            };
            &&& paths.len() == up.len() + own
            &&& home matches Some(h) ==> paths[0] == below(below(h, ".grok"@), "GROK.md"@)
            &&& forall|k: int|
                0 <= k < up.len() ==> #[trigger] paths[own + k] == below(
                    up[up.len() - 1 - k],
                    "GROK.md"@,
                )
        }),
{
}

/// The files of a project come after those of the user, so that they win.
pub proof fn law_projects_win_over_users(
    home: Seq<char>,
    workspace: Seq<char>,
    name: Seq<char>,
)
    ensures
        layered(Some(home), workspace, name) == seq![
            below(below(home, ".grok"@), name),
            below(below(workspace, ".grok"@), name),
        ],
        layered(None, workspace, name) == seq![below(below(workspace, ".grok"@), name)],
{
}

/// Instructions that are there are taken, in order: a file that is blank is not,
/// and none is taken twice.
pub proof fn law_instructions_are_taken_once(
    paths: Seq<Seq<char>>,
    contents: Seq<Option<String>>,
    path: Seq<char>,
)
    requires
        contents.len() > paths.len(),
    ensures
        ({
            let before = memory_found(paths, contents);
            let r = memory_found(paths.push(path), contents);
            match contents[paths.len() as int] {
                Some(c) => if is_blank(c@) || has_path(before, path) {
                    r == before
                } else {
                    r == before.push((path, c@))
                },
                None => r == before,
            }
        }),
        memory_found(Seq::empty(), contents) == Seq::<(Seq<char>, Seq<char>)>::empty(),
{
    assert(paths.push(path).drop_last() =~= paths);
    match contents[paths.len() as int] {
        Some(c) => crate::laws::text::law_blank_text_trims_to_nothing(c@),
        None => {},
    }
}

} // verus!
