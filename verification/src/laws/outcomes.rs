//! What tools report, and what is read from files and from servers.
use vstd::prelude::*;
use crate::agent::subagent::{definition, definitions_in};
use crate::agent::{preview_lines, preview_of, preview_target, proposed, StopView};
use crate::api::client::error_in;
use crate::api::sse::utf8_lossy;
use crate::api::types::ToolSpec;
use crate::commands::{commands_in, custom_command};
use crate::config::PermissionMode;
use crate::frontmatter::{fence_of, FenceView};
use crate::headless::{last_word, warning_texts, RunView};
use crate::json::{bool_field, field, str_field, Json};
use crate::laws::text::{
    is_blank, is_cut_at, law_blank_text_trims_to_nothing, law_decimals_stand_for_their_number,
    law_replacing,
};
use crate::mcp::{
    blocks_text, borrowed_name, is_call_outcome, is_listed_tool, is_request, named_tools, CallEnd,
};
use crate::text;
use crate::tools::edit::PlanView;
use crate::tools::fs::{
    is_edit_outcome, is_read_outcome, is_write_outcome, read_body, read_limit, read_start,
};
use crate::tools::misc::is_web_url;
use crate::tools::schema::{counted, flag_arg, required_text};
use crate::tools::shell::{fresh_shell, shell_id};
use crate::tools::ToolOutcome;
use crate::util::{self, DiffKind, RawChange};

verus! {

// ---------------------------------------------------------------------------
// Previews
// ---------------------------------------------------------------------------

/// What a call would write is what the user is shown, in the file that the call
/// names.
pub proof fn law_writes_are_previewed(
    workspace: Seq<char>,
    args: Json,
    current: Seq<char>,
    path: Seq<char>,
    content: Seq<char>,
)
    requires
        str_field(args, "path"@) == Some(path),
        str_field(args, "content"@) == Some(content),
    ensures
        preview_target(workspace, args) == Some(util::resolved(workspace, path)),
        proposed("write_file"@, args, current) == Some(content),
{
}

/// An edit of every place is previewed as it will be made.
pub proof fn law_edits_are_previewed(
    args: Json,
    current: Seq<char>,
    old: Seq<char>,
    new: Seq<char>,
)
    requires
        str_field(args, "path"@) is Some,
        str_field(args, "old_string"@) == Some(old),
        str_field(args, "new_string"@) == Some(new),
        old.len() > 0,
    ensures
        bool_field(args, "replace_all"@) == Some(true) ==> exists|parts: Seq<Seq<char>>|
            #[trigger] is_cut_at(current, old, parts) && proposed("edit_file"@, args, current)
                == Some(text::joined(parts, new)),
        bool_field(args, "replace_all"@) != Some(true) && text::contains(current, old)
            ==> exists|before: Seq<char>, after: Seq<char>|
            current == before + old + after && proposed("edit_file"@, args, current) == Some(
                #[trigger] (before + new + after),
            ) && !text::contains(before, old),
{
    reveal_strlit("write_file");
    reveal_strlit("edit_file");
    assert("write_file"@.len() == 10 && "edit_file"@.len() == 9);
    law_replacing(current, old, new);
    if bool_field(args, "replace_all"@) == Some(true) {
        let parts = choose|parts: Seq<Seq<char>>|
            #[trigger] is_cut_at(current, old, parts) && text::replaced(current, old, new)
                == text::joined(parts, new) && text::occurrences(current, old) == parts.len() - 1;
        assert(is_cut_at(current, old, parts));
    } else if text::contains(current, old) {
        text::lemma_contains_is_found(current, old);
        text::lemma_found_from(current, old, 0);
        let k = text::found(current, old)->0;
        let before = current.take(k);
        let after = current.skip(k + old.len());
        assert(current =~= before + current.subrange(k, k + old.len()) + after);
        assert(proposed("edit_file"@, args, current) == Some(before + new + after));
        if text::contains(before, old) {
            let i = choose|i: int| text::occurs_at(before, old, i);
            assert(before.subrange(i, i + old.len()) =~= current.subrange(i, i + old.len()));
            assert(text::occurs_at(current, old, i));
        }
    }
}

/// Other tools have no preview, and neither has a call without a path.
pub proof fn law_other_calls_have_no_preview(tool: Seq<char>, args: Json, current: Seq<char>)
    ensures
        tool != "write_file"@ && tool != "edit_file"@ ==> preview_of(tool, args, current) is None,
        str_field(args, "path"@) is None ==> preview_of(tool, args, current) is None,
{
}

/// Each changed line is shown with its mark, in its order.
pub proof fn law_previews_mark_lines(changes: Seq<RawChange>, i: int)
    requires
        0 <= i < changes.len(),
    ensures
        preview_lines(changes).len() == changes.len(),
        preview_lines(changes)[i] == seq![
            match changes[i].0 {
                DiffKind::Added => '+',
                DiffKind::Removed => '-',
                DiffKind::Context => ' ',
            },
        ] + util::without_breaks(changes[i].3),
{
    reveal_strlit("+");
    reveal_strlit("-");
    reveal_strlit(" ");
    assert("+"@ =~= seq!['+'] && "-"@ =~= seq!['-'] && " "@ =~= seq![' ']);
}

// ---------------------------------------------------------------------------
// Files
// ---------------------------------------------------------------------------

/// A file with a zero byte among its first 8192 is no text. Of any other the lines
/// that were asked for are shown, unless the first of them lies behind the last
/// line of the file.
pub proof fn law_text_files_are_read(
    o: ToolOutcome,
    args: Json,
    workspace: Seq<char>,
    path: Seq<char>,
    bytes: Seq<u8>,
)
    requires
        is_read_outcome(o, args, workspace, path, bytes),
    ensures
        ({
            let content = utf8_lossy(bytes);
            let total = text::lines_of(content).len();
            let is_binary = exists|i: int|
                0 <= i < bytes.len() && i < 8192 && #[trigger] bytes[i] == 0;
            let is_behind = total > 0 && read_start(args) > total;
            &&& o.is_error <==> is_binary || is_behind
            &&& !is_binary && !is_behind ==> o.content@ == read_body(
                path,
                content,
                read_start(args),
                read_limit(args),
            )
        }),
{
}

/// A write says whether there was a file before, and shows what changed.
pub proof fn law_writes_are_reported(
    o: ToolOutcome,
    shown: Seq<char>,
    existed: bool,
    previous: Seq<char>,
    content: Seq<char>,
)
    requires
        is_write_outcome(o, shown, existed, previous, content),
    ensures
        !o.is_error,
        existed ==> o.content@ == "Overwrote "@ + shown + " ("@ + text::decimal(
            text::lines_of(content).len(),
        ) + " lines)"@,
        !existed ==> o.content@ == "Created "@ + shown + " ("@ + text::decimal(
            text::lines_of(content).len(),
        ) + " lines)"@,
        o.display.diff@.len() == util::line_changes(previous, content, 3).len(),
{
}

/// An edit says how many places it replaced, and shows what changed.
pub proof fn law_edits_are_reported(
    o: ToolOutcome,
    shown: Seq<char>,
    content: Seq<char>,
    plan: PlanView,
    i: int,
)
    requires
        is_edit_outcome(o, shown, content, plan),
    ensures
        !o.is_error,
        text::starts_with(
            o.content@,
            "Edited "@ + shown + ": "@ + counted(
                plan.matches,
                " replacement"@,
                " replacements"@,
            ),
        ),
        ({
            let changes = util::line_changes(content, plan.updated, 3);
            &&& o.display.diff@.len() == changes.len()
            &&& 0 <= i < changes.len() ==> o.display.diff@[i].kind == changes[i].0
                && o.display.diff@[i].text@ == util::without_breaks(changes[i].3)
        }),
{
    let start = "Edited "@ + shown + ": "@ + counted(
        plan.matches,
        " replacement"@,
        " replacements"@,
    );
    assert(o.content@.subrange(0, start.len() as int) =~= start);
    let changes = util::line_changes(content, plan.updated, 3);
    if 0 <= i < changes.len() {
        assert(util::renders(o.display.diff@[i], changes[i]));
    }
}

// ---------------------------------------------------------------------------
// Definitions
// ---------------------------------------------------------------------------

/// A file without settings defines a subagent by its name and its text.
pub proof fn law_plain_files_define_subagents(body: Seq<char>, path: Seq<char>, stem: Seq<char>)
    requires
        fence_of(body) is Absent,
        util::stem_of(path) == Some(stem),
    ensures
        is_blank(body) ==> definition(body, path) is None,
        !is_blank(body) ==> {
            &&& definition(body, path) matches Some(d)
            &&& d.name == stem
            &&& d.prompt == text::trimmed(body)
            &&& d.tools is None
            &&& d.model is None
        },
{
    law_blank_text_trims_to_nothing(body);
    let none = Seq::<char>::empty();
    assert(text::pieces(none, '\n') =~= seq![none]);
    let lines = text::lines_of(none);
    assert(lines =~= Seq::<Seq<char>>::empty());
}

/// A file with settings is set up by them, and the rest of it is the prompt. One
/// whose settings do not end defines nothing.
pub proof fn law_settings_define_subagents(
    whole: Seq<char>,
    path: Seq<char>,
    stem: Seq<char>,
    block: Seq<char>,
    body: Seq<char>,
)
    requires
        util::stem_of(path) == Some(stem),
    ensures
        fence_of(whole) is Unclosed ==> definition(whole, path) is None,
        fence_of(whole) == FenceView::Closed(block, body) && !is_blank(body) ==> {
            let s = crate::agent::subagent::settings(stem, text::lines_of(block));
            &&& definition(whole, path) matches Some(d)
            &&& d.name == s.name
            &&& d.tools == s.tools
            &&& d.model == s.model
            &&& d.prompt == text::trimmed(body)
            &&& s.description.len() > 0 ==> d.description == s.description
        },
{
    law_blank_text_trims_to_nothing(body);
}

/// A directory defines what its Markdown files define, in their order.
pub proof fn law_directories_define(
    files: Seq<crate::frontmatter::SourceFile>,
    f: crate::frontmatter::SourceFile,
)
    ensures
        util::extension_of(f.path@) == Some("md"@) ==> {
            &&& definition(f.text@, f.path@) matches Some(d) ==> definitions_in(files.push(f))
                == definitions_in(files).push(d)
            &&& custom_command(f.text@, f.path@) matches Some(c) ==> commands_in(files.push(f))
                == commands_in(files).push(c)
            &&& definition(f.text@, f.path@) is None ==> definitions_in(files.push(f))
                == definitions_in(files)
            &&& custom_command(f.text@, f.path@) is None ==> commands_in(files.push(f))
                == commands_in(files)
        },
        util::extension_of(f.path@) != Some("md"@) ==> {
            &&& definitions_in(files.push(f)) == definitions_in(files)
            &&& commands_in(files.push(f)) == commands_in(files)
        },
{
    assert(files.push(f).drop_last() =~= files);
}

/// A file defines the command of its name, whose template is the text of the file
/// behind its settings, or the whole of it.
pub proof fn law_files_define_commands(
    whole: Seq<char>,
    path: Seq<char>,
    stem: Seq<char>,
    block: Seq<char>,
    body: Seq<char>,
)
    requires
        util::stem_of(path) == Some(stem),
    ensures
        fence_of(whole) == FenceView::Closed(block, body) ==> {
            &&& is_blank(body) ==> custom_command(whole, path) is None
            &&& !is_blank(body) ==> {
                &&& custom_command(whole, path) matches Some(c)
                &&& c.name == stem
                &&& c.template == Some(text::trimmed(body))
                &&& c.argument_hint == crate::commands::command_settings(text::lines_of(block)).1
            }
        },
        !(fence_of(whole) is Closed) && !is_blank(whole) ==> {
            &&& custom_command(whole, path) matches Some(c)
            &&& c.name == stem
            &&& c.template == Some(text::trimmed(whole))
        },
{
    law_blank_text_trims_to_nothing(body);
    law_blank_text_trims_to_nothing(whole);
}

// ---------------------------------------------------------------------------
// Servers
// ---------------------------------------------------------------------------

/// A request carries its id, its method and what it is called with.
pub proof fn law_requests_carry_their_id(f: Json, id: u64, method: Seq<char>, params: Json)
    requires
        is_request(f, id, method, params),
    ensures
        field(f, "id"@) == Some(Json::UInt(id)),
        str_field(f, "jsonrpc"@) == Some("2.0"@),
        str_field(f, "method"@) == Some(method),
        field(f, "params"@) == Some(params),
{
    reveal_strlit("id");
    reveal_strlit("jsonrpc");
    reveal_strlit("method");
    reveal_strlit("params");
    assert("id"@.len() == 2 && "jsonrpc"@.len() == 7 && "method"@.len() == 6);
    assert("params"@.len() == 6 && "params"@[0] == 'p' && "method"@[0] == 'm');
    let m = f->Object_0@;
    crate::laws::calls::law_keys_have_their_values(m, "id"@, 0);
    crate::laws::calls::law_keys_have_their_values(m, "jsonrpc"@, 1);
    crate::laws::calls::law_keys_have_their_values(m, "method"@, 2);
    crate::laws::calls::law_keys_have_their_values(m, "params"@, 3);
}

/// A tool of a server is listed under the server's name, with what the server says
/// of it.
pub proof fn law_borrowed_tools_are_listed(server: Seq<char>, t: Json, r: ToolSpec)
    requires
        is_listed_tool(server, t, r),
    ensures
        str_field(t, "name"@) matches Some(name) && r.function.name@ == borrowed_name(server, name),
        str_field(t, "description"@) matches Some(d) ==> r.function.description@ == "["@ + server
            + "] "@ + d,
        field(t, "inputSchema"@) matches Some(s) ==> *r.function.parameters == s,
        field(t, "inputSchema"@) is None ==> (field(t, "input_schema"@) matches Some(s)
            ==> *r.function.parameters == s),
{
}

/// Every entry of a tool list that has a name is taken.
pub proof fn law_named_tools_are_taken(result: Json, list: Vec<Json>, t: Json)
    requires
        field(result, "tools"@) == Some(Json::Array(list)),
    ensures
        named_tools(result).contains(t) <==> list@.contains(t) && str_field(t, "name"@) is Some,
{
    let keep = |t: Json| str_field(t, "name"@) is Some;
    list@.filter_lemma(keep);
    if list@.contains(t) && keep(t) {
        let i = choose|i: int| 0 <= i < list@.len() && list@[i] == t;
        assert(list@.filter(keep).contains(list@[i]));
    }
    if list@.filter(keep).contains(t) {
        list@.lemma_filter_contains_rev(keep, t);
        let i = choose|i: int| 0 <= i < list@.filter(keep).len() && list@.filter(keep)[i] == t;
        assert(keep(list@.filter(keep)[i]));
    }
}

/// What a server answers is what the model gets, where it is not too long, and it
/// is an error where the server says so.
pub proof fn law_servers_are_heard(o: ToolOutcome, server: Seq<char>, value: Json, blocks: Vec<Json>)
    requires
        is_call_outcome(o, server, CallEnd::Answered(value)),
        field(value, "content"@) == Some(Json::Array(blocks)),
        text::byte_count(blocks_text(blocks@)) <= 65_536,
    ensures
        o.is_error <==> bool_field(value, "isError"@) == Some(true),
        !is_blank(blocks_text(blocks@)) ==> o.content@ == blocks_text(blocks@),
{
    law_blank_text_trims_to_nothing(blocks_text(blocks@));
}

/// An error that the provider sends in the middle of a stream is told.
pub proof fn law_errors_in_the_stream_are_told(j: Json, said: Seq<char>)
    ensures
        field(j, "error"@) matches Some(e) ==> error_in(Ok(j)) == Some(
            "API error mid-stream: "@ + crate::json::json_text(e),
        ),
        field(j, "error"@) is None ==> error_in(Ok(j)) is None,
        error_in(Err(said)) is None,
{
}

// ---------------------------------------------------------------------------
// Small things
// ---------------------------------------------------------------------------

/// An argument is what the call says; one that is required and not there is asked
/// for, and a flag that is not there is not set.
pub proof fn law_arguments_are_what_is_said(args: Json, key: Seq<char>, said: Seq<char>)
    ensures
        str_field(args, key) == Some(said) <==> required_text(args, key) == Ok::<
            Seq<char>,
            Seq<char>,
        >(said),
        str_field(args, key) is None ==> required_text(args, key) == Err::<Seq<char>, Seq<char>>(
            "missing required string argument `"@ + key + "`"@,
        ),
        flag_arg(args, key) <==> field(args, key) == Some(Json::Bool(true)),
{
}

/// Each background shell has a name of its own, and starts out silent.
pub proof fn law_shells_have_their_names(a: nat, b: nat, command: Seq<char>)
    ensures
        shell_id(a) == shell_id(b) <==> a == b,
        fresh_shell(command).command == command,
        fresh_shell(command).pending.len() == 0,
        !fresh_shell(command).finished,
        fresh_shell(command).exit_code is None,
{
    if shell_id(a) == shell_id(b) {
        let n = "shell_"@.len() as int;
        assert(shell_id(a).skip(n) =~= text::decimal(a));
        assert(shell_id(b).skip(n) =~= text::decimal(b));
        law_decimals_stand_for_their_number(a);
        law_decimals_stand_for_their_number(b);
    }
}

/// A page is fetched over HTTP or HTTPS, and over nothing else.
pub proof fn law_pages_are_of_the_web(rest: Seq<char>, url: Seq<char>)
    ensures
        is_web_url("http://"@ + rest),
        is_web_url("https://"@ + rest),
        is_web_url(url) ==> "http://"@.is_prefix_of(url) || "https://"@.is_prefix_of(url),
{
    let a = "http://"@ + rest;
    let b = "https://"@ + rest;
    assert(a.subrange(0, "http://"@.len() as int) =~= "http://"@);
    assert(b.subrange(0, "https://"@.len() as int) =~= "https://"@);
}

/// A run warns of each server that could not be started, of rules that cannot be
/// read, and of permissions that are bypassed.
pub proof fn law_runs_warn(
    failures: Seq<(String, String)>,
    invalid: Seq<Seq<char>>,
    mode: PermissionMode,
    i: int,
)
    ensures
        ({
            let r = warning_texts(failures, invalid, mode);
            let n = failures.len() as int;
            let rules = if invalid.len() > 0 {
                1int
            } else {
                0
            };
            let bypass = if mode == PermissionMode::BypassPermissions {
                1int
            } else {
                0
            };
            &&& r.len() == n + rules + bypass
            &&& 0 <= i < n ==> r[i] == "warning: MCP server `"@ + failures[i].0@
                + "` unavailable: "@ + failures[i].1@
            &&& invalid.len() > 0 ==> r[n] == "warning: ignoring malformed permission rules: "@
                + text::joined(invalid, ", "@)
            &&& bypass == 1 ==> r.last() == "warning: running with permissions bypassed"@
        }),
{
}

/// A run that ends well has no last word, and one that ends badly says why.
pub proof fn law_runs_have_a_last_word(run: RunView)
    ensures
        run.stop is Complete && !is_blank(run.answer) ==> last_word(run) is None,
        run.stop is Complete && run.blocked.len() == 0 ==> last_word(run) is None,
        !(run.stop is Complete) ==> last_word(run) is Some,
        run.stop matches StopView::Error(e) ==> last_word(run) == Some("error: "@ + e),
{
    law_blank_text_trims_to_nothing(run.answer);
}

} // verus!
