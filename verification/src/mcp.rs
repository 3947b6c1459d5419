//! Model Context Protocol client: borrow tools from external servers.
//!
//! Speaks JSON-RPC 2.0 over a child process's stdin and stdout. The caller runs
//! the processes and moves the lines; what the lines mean is decided here.
//!
//! Discovered tools are namespaced `mcp__<server>__<tool>` so a server cannot
//! shadow a built-in. Every one of them is classified as executing: the harness
//! cannot see what a remote tool does, so it prompts by default.
use vstd::prelude::*;
use vstd::string::StringExecFns;
use crate::api::types::ToolSpec;
use crate::config::McpServerConfig;
use crate::json::{
    bool_field, copy_json, field, is_text, json_pretty, json_text, parse_json, parsed_json,
    print_json, print_json_pretty, same_json, str_field, uint_field, Json,
};
use crate::table::Table;
use crate::text;
use crate::tools::{ToolInfo, ToolKind, ToolOutcome};
use crate::util;

verus! {

/// Protocol version this client implements.
pub const PROTOCOL_VERSION: &'static str = "2024-11-05";

/// How long to wait for any single request before giving up on the server, in
/// seconds.
pub const REQUEST_TIMEOUT_SECS: u64 = 60;

/// How long a server may take to start, in seconds.
pub const HANDSHAKE_TIMEOUT_SECS: u64 = 30;

/// Cap on a tool result, matching the local tools' bound.
pub const MAX_RESULT_BYTES: usize = 65_536;

// ---------------------------------------------------------------------------
// Names
// ---------------------------------------------------------------------------

/// What the names of a server's tools begin with.
pub open spec fn name_prefix(server: Seq<char>) -> Seq<char> {
    "mcp__"@ + server + "__"@
}

/// The name of a tool borrowed from a server.
pub open spec fn borrowed_name(server: Seq<char>, tool: Seq<char>) -> Seq<char> {
    name_prefix(server) + tool
}

fn prefix_of(server: &str) -> (r: String)
    ensures
        r@ == name_prefix(server@),
{
    let mut s = "mcp__".to_owned();
    s.append(server);
    s.append("__");
    s
}

/// Namespaced name for a tool borrowed from `server`.
pub fn namespaced(server: &str, tool: &str) -> (r: String)
    ensures
        r@ == borrowed_name(server@, tool@),
{
    let mut s = prefix_of(server);
    s.append(tool);
    s
}

/// The name of a tool on its server.
pub open spec fn name_on_server(server: Seq<char>, name: Seq<char>) -> Seq<char> {
    match text::stripped_prefix(name, name_prefix(server)) {
        Some(rest) => rest,
        None => name,
    }
}

/// The tool's name on the server, with the namespace prefix removed.
pub fn remote_name(server: &str, name: &str) -> (r: String)
    ensures
        r@ == name_on_server(server@, name@),
{
    match text::strip_prefix(name, &prefix_of(server)) {
        Some(rest) => rest,
        None => name.to_owned(),
    }
}

/// No borrowed tool has the name of a built-in one, whatever its server calls
/// itself and it.
pub proof fn law_borrowed_tools_never_shadow(server: Seq<char>, tool: Seq<char>)
    ensures
        !crate::tools::builtin_names().contains(borrowed_name(server, tool)),
{
    reveal_strlit("mcp__");
    reveal_strlit("read_file");
    reveal_strlit("write_file");
    reveal_strlit("edit_file");
    reveal_strlit("list_files");
    reveal_strlit("glob");
    reveal_strlit("grep");
    reveal_strlit("bash");
    reveal_strlit("bash_output");
    reveal_strlit("kill_shell");
    reveal_strlit("todo_write");
    reveal_strlit("web_fetch");
    let names = crate::tools::builtin_names();
    let b = borrowed_name(server, tool);
    assert(b[0] == 'm');
    assert(names[0][0] == 'r' && names[1][0] == 'w' && names[2][0] == 'e' && names[3][0] == 'l'
        && names[4][0] == 'g' && names[5][0] == 'g' && names[6][0] == 'b' && names[7][0] == 'b'
        && names[8][0] == 'k' && names[9][0] == 't' && names[10][0] == 'w');
    assert forall|i: int| 0 <= i < names.len() implies names[i] != b by {
        assert(names[i][0] != 'm');
    }
}

/// A server is asked for the tool by the name that it gave it.
pub proof fn law_names_go_back_to_the_server(server: Seq<char>, tool: Seq<char>)
    ensures
        name_on_server(server, borrowed_name(server, tool)) == tool,
{
    let p = name_prefix(server);
    let b = borrowed_name(server, tool);
    assert(b.subrange(0, p.len() as int) =~= p);
    assert(b.skip(p.len() as int) =~= tool);
}

// ---------------------------------------------------------------------------
// Replies
// ---------------------------------------------------------------------------

/// A response to a request.
#[derive(Debug)]
pub struct Frame {
    /// The id of the request that is answered.
    pub id: u64,
    pub payload: Result<Json, String>,
}

/// The text of an error, where a response reports one.
pub open spec fn error_text(error: Json) -> Seq<char> {
    match str_field(error, "message"@) {
        Some(m) => m,
        None => "unknown error"@,
    }
}

/// What a line from a server is to a waiting request, given what the parser
/// makes of it. Lines that answer nothing are passed over.
pub open spec fn is_frame(parsed: Result<Json, Seq<char>>, r: Option<Frame>) -> bool {
    match parsed {
        Err(_) => r is None,
        Ok(j) => match uint_field(j, "id"@) {
            None => r is None,
            Some(id) => {
                &&& r matches Some(f)
                &&& f.id == id
                &&& match field(j, "error"@) {
                    Some(error) => f.payload matches Err(m) && m@ == error_text(error),
                    None => f.payload == Ok::<Json, String>(
                        match field(j, "result"@) {
                            Some(v) => v,
                            None => Json::Null,
                        },
                    ),
                }
            },
        },
    }
}

/// Reads a parsed line from a server.
pub fn frame_in(parsed: Result<Json, String>) -> (r: Option<Frame>)
    ensures
        is_frame(
            match parsed {
                Ok(j) => Ok::<Json, Seq<char>>(j),
                Err(e) => Err::<Json, Seq<char>>(e@),
            },
            r,
        ),
{
    match parsed {
        Err(_) => None,
        Ok(j) => {
            let id: u64 = match j.get_u64("id") {
                Some(n) => n,
                None => {
                    return None;
                },
            };
            let failed: Option<String> = match j.get("error") {
                Some(error) => Some(
                    match error.get_str("message") {
                        Some(m) => m,
                        None => "unknown error".to_owned(),
                    },
                ),
                None => None,
            };
            let payload = match failed {
                Some(m) => Err(m),
                None => match j.take("result") {
                    Some(v) => Ok(v),
                    None => Ok(Json::Null),
                },
            };
            Some(Frame { id, payload })
        },
    }
}

/// Reads a line from a server.
pub fn read_frame(line: &str) -> (r: Option<Frame>)
    ensures
        is_frame(parsed_json(line@), r),
{
    frame_in(parse_json(line))
}

/// Whether a value is a request: an id for the answer, a method and what it is
/// called with.
pub open spec fn is_request(f: Json, id: u64, method: Seq<char>, params: Json) -> bool {
    &&& f matches Json::Object(m)
    &&& m@.len() == 4
    &&& m@[0].0@ == "id"@ && m@[0].1 == Json::UInt(id)
    &&& m@[1].0@ == "jsonrpc"@ && is_text(m@[1].1, "2.0"@)
    &&& m@[2].0@ == "method"@ && is_text(m@[2].1, method)
    &&& m@[3].0@ == "params"@ && m@[3].1 == params
}

/// A request, to which the server answers under the same id.
pub fn request_frame(id: u64, method: &str, params: Json) -> (r: Json)
    ensures
        is_request(r, id, method@, params),
{
    let mut m: Vec<(String, Json)> = Vec::new();
    m.push(("id".to_owned(), Json::UInt(id)));
    m.push(("jsonrpc".to_owned(), Json::Str("2.0".to_owned())));
    m.push(("method".to_owned(), Json::Str(method.to_owned())));
    m.push(("params".to_owned(), params));
    Json::Object(m)
}

/// A notification, to which there is no answer.
pub fn notification_frame(method: &str, params: Json) -> (r: Json)
    ensures
        ({
            &&& r matches Json::Object(m)
            &&& m@.len() == 3
            &&& m@[0].0@ == "jsonrpc"@ && is_text(m@[0].1, "2.0"@)
            &&& m@[1].0@ == "method"@ && is_text(m@[1].1, method@)
            &&& m@[2].0@ == "params"@ && m@[2].1 == params
        }),
{
    let mut m: Vec<(String, Json)> = Vec::new();
    m.push(("jsonrpc".to_owned(), Json::Str("2.0".to_owned())));
    m.push(("method".to_owned(), Json::Str(method.to_owned())));
    m.push(("params".to_owned(), params));
    Json::Object(m)
}

/// What a connection begins with: the version, the capabilities and the name of
/// this client.
pub fn initialize_params() -> (r: Json)
    ensures
        ({
            &&& r matches Json::Object(m)
            &&& m@.len() == 3
            &&& m@[0].0@ == "protocolVersion"@ && is_text(m@[0].1, PROTOCOL_VERSION@)
            &&& m@[1].0@ == "capabilities"@
            &&& m@[1].1 matches Json::Object(able)
            &&& able@.len() == 1
            &&& able@[0].0@ == "tools"@
            &&& able@[0].1 matches Json::Object(none)
            &&& none@.len() == 0
            &&& m@[2].0@ == "clientInfo"@
            &&& m@[2].1 matches Json::Object(client)
            &&& client@.len() == 2
            &&& client@[0].0@ == "name"@ && is_text(client@[0].1, crate::APP_NAME@)
            &&& client@[1].0@ == "version"@ && is_text(client@[1].1, crate::VERSION@)
        }),
{
    let mut able: Vec<(String, Json)> = Vec::new();
    able.push(("tools".to_owned(), Json::Object(Vec::new())));
    let mut client: Vec<(String, Json)> = Vec::new();
    client.push(("name".to_owned(), Json::Str(crate::APP_NAME.to_owned())));
    client.push(("version".to_owned(), Json::Str(crate::VERSION.to_owned())));
    let mut m: Vec<(String, Json)> = Vec::new();
    m.push(("protocolVersion".to_owned(), Json::Str(PROTOCOL_VERSION.to_owned())));
    m.push(("capabilities".to_owned(), Json::Object(able)));
    m.push(("clientInfo".to_owned(), Json::Object(client)));
    Json::Object(m)
}

/// What a call of a borrowed tool asks its server for: the tool under the name
/// that the server gave it, and the arguments as they are.
pub fn call_params(server: &str, name: &str, args: &Json) -> (r: Json)
    ensures
        ({
            &&& r matches Json::Object(m)
            &&& m@.len() == 2
            &&& m@[0].0@ == "arguments"@ && same_json(*args, m@[0].1)
            &&& m@[1].0@ == "name"@ && is_text(m@[1].1, name_on_server(server@, name@))
        }),
{
    let mut m: Vec<(String, Json)> = Vec::new();
    m.push(("arguments".to_owned(), copy_json(args)));
    m.push(("name".to_owned(), Json::Str(remote_name(server, name))));
    Json::Object(m)
}

/// A frame as it is written: one line.
pub fn frame_line(frame: &Json) -> (r: String)
    ensures
        r@ == json_text(*frame) + "\n"@,
{
    let mut s = print_json(frame);
    s.append("\n");
    s
}

/// What is said of a server that does not answer in time when it is started.
pub fn handshake_error() -> (r: String)
    ensures
        r@ == "handshake timed out after "@ + text::decimal(HANDSHAKE_TIMEOUT_SECS as nat) + "s"@,
{
    let mut s = "handshake timed out after ".to_owned();
    s.append(&text::number(HANDSHAKE_TIMEOUT_SECS));
    s.append("s");
    s
}

/// Why a request has no result.
#[derive(Debug)]
pub enum RequestFailure {
    TimedOut,
    /// The server closed the connection.
    Closed,
    /// The server answered with an error.
    Answered(String),
}

pub open spec fn failure_text(method: Seq<char>, f: RequestFailure) -> Seq<char> {
    match f {
        RequestFailure::TimedOut => "MCP request `"@ + method + "` timed out after "@
            + text::decimal(REQUEST_TIMEOUT_SECS as nat) + "s"@,
        RequestFailure::Closed => "MCP server closed the connection during `"@ + method + "`"@,
        RequestFailure::Answered(e) => "MCP error from `"@ + method + "`: "@ + e@,
    }
}

/// What is said of a request that failed.
pub fn request_error(method: &str, f: &RequestFailure) -> (r: String)
    ensures
        r@ == failure_text(method@, *f),
{
    match f {
        RequestFailure::TimedOut => {
            let mut s = "MCP request `".to_owned();
            s.append(method);
            s.append("` timed out after ");
            s.append(&text::number(REQUEST_TIMEOUT_SECS));
            s.append("s");
            s
        },
        RequestFailure::Closed => {
            let mut s = "MCP server closed the connection during `".to_owned();
            s.append(method);
            s.append("`");
            s
        },
        RequestFailure::Answered(e) => {
            let mut s = "MCP error from `".to_owned();
            s.append(method);
            s.append("`: ");
            s.append(e);
            s
        },
    }
}

pub open spec fn text_of(j: Json, key: Seq<char>, default: Seq<char>) -> Seq<char> {
    match str_field(j, key) {
        Some(s) => s,
        None => default,
    }
}

fn text_at(j: &Json, key: &str, default: &str) -> (r: String)
    ensures
        r@ == text_of(*j, key@, default@),
{
    match j.get_str(key) {
        Some(s) => s,
        None => default.to_owned(),
    }
}

/// What a server says of itself in the handshake.
pub open spec fn described(init: Json) -> Seq<char> {
    match field(init, "serverInfo"@) {
        Some(i) => text::trimmed(text_of(i, "name"@, "unknown"@) + " "@ + text_of(i, "version"@, ""@)),
        None => "unknown"@,
    }
}

/// Server-reported name and version.
pub fn server_info(init: &Json) -> (r: String)
    ensures
        r@ == described(*init),
{
    match init.get("serverInfo") {
        Some(i) => {
            let mut s = text_at(i, "name", "unknown");
            s.append(" ");
            s.append(&text_at(i, "version", ""));
            text::trim(&s)
        },
        None => "unknown".to_owned(),
    }
}

// ---------------------------------------------------------------------------
// The tools of a server
// ---------------------------------------------------------------------------

/// Whether `schema` is what a tool says of its arguments. Servers vary on the
/// key; a tool that says nothing takes any object.
pub open spec fn is_tool_schema(t: Json, schema: Json) -> bool {
    match (field(t, "inputSchema"@), field(t, "input_schema"@)) {
        (Some(s), _) => schema == s,
        (None, Some(s)) => schema == s,
        (None, None) => {
            &&& str_field(schema, "type"@) == Some("object"@)
            &&& field(schema, "properties"@) matches Some(Json::Object(p))
            &&& p@.len() == 0
            &&& schema matches Json::Object(m)
            &&& m@.len() == 2
        },
    }
}

/// Whether `r` is what is made of one entry of a tool list. A nameless one is
/// dropped.
pub open spec fn is_listed_tool(server: Seq<char>, t: Json, r: ToolSpec) -> bool {
    match str_field(t, "name"@) {
        None => false,
        Some(name) => {
            &&& r.kind@ == "function"@
            &&& r.function.name@ == borrowed_name(server, name)
            &&& r.function.description@ == "["@ + server + "] "@ + text_of(
                t,
                "description"@,
                "(no description provided)"@,
            )
            &&& is_tool_schema(t, *r.function.parameters)
        },
    }
}

/// The entries of a tool list that have a name.
pub open spec fn named_tools(result: Json) -> Seq<Json> {
    match field(result, "tools"@) {
        Some(Json::Array(list)) => list@.filter(|t: Json| str_field(t, "name"@) is Some),
        _ => Seq::empty(),
    }
}

fn any_object() -> (r: Json)
    ensures
        str_field(r, "type"@) == Some("object"@),
        field(r, "properties"@) matches Some(Json::Object(p)) && p@.len() == 0,
        r matches Json::Object(m) && m@.len() == 2,
{
    let mut m: Vec<(String, Json)> = Vec::new();
    m.push(("type".to_owned(), Json::Str("object".to_owned())));
    m.push(("properties".to_owned(), Json::Object(Vec::new())));
    proof {
        reveal_strlit("type");
        reveal_strlit("properties");
        assert("type"@.len() == 4 && "properties"@.len() == 10);
        reveal_with_fuel(crate::json::member, 3);
        assert(m@[0].0@ == "type"@);
        assert(m@.skip(1)[0] == m@[1]);
        assert(m@[1].0@ == "properties"@);
    }
    Json::Object(m)
}

/// What is made of one entry of a tool list.
fn listed_tool(server: &str, t: Json) -> (r: Option<ToolSpec>)
    ensures
        match r {
            Some(s) => is_listed_tool(server@, t, s),
            None => str_field(t, "name"@) is None,
        },
{
    let name = match t.get_str("name") {
        Some(n) => n,
        None => {
            return None;
        },
    };
    let mut description = "[".to_owned();
    description.append(server);
    description.append("] ");
    description.append(&text_at(&t, "description", "(no description provided)"));
    let camel = t.get("inputSchema").is_some();
    let snake = t.get("input_schema").is_some();
    let schema = if camel {
        t.take("inputSchema")
    } else if snake {
        t.take("input_schema")
    } else {
        None
    };
    let parameters = match schema {
        Some(s) => s,
        None => any_object(),
    };
    Some(ToolSpec::function(&namespaced(server, &name), &description, parameters))
}

/// Turn a `tools/list` result into namespaced specs.
pub fn parse_tool_list(server: &str, result: Json) -> (r: Vec<ToolSpec>)
    ensures
        r@.len() == named_tools(result).len(),
        forall|i: int|
            0 <= i < r@.len() ==> is_listed_tool(
                server@,
                named_tools(result)[i],
                #[trigger] r@[i],
            ),
{
    let mut out: Vec<ToolSpec> = Vec::new();
    let list = match result.take("tools") {
        Some(Json::Array(l)) => l,
        _ => {
            return out;
        },
    };
    let ghost keep = |t: Json| str_field(t, "name"@) is Some;
    let ghost all = list@;
    let ghost n = all.len();
    let mut rest = list;
    proof {
        reveal(Seq::filter);
    }
    assert(rest@ =~= all.skip(0));
    while rest.len() > 0
        invariant
            n == all.len(),
            rest@.len() <= n,
            rest@ == all.skip(n - rest@.len()),
            keep == (|t: Json| str_field(t, "name"@) is Some),
            out@.len() == all.take(n - rest@.len()).filter(keep).len(),
            forall|i: int|
                0 <= i < out@.len() ==> is_listed_tool(
                    server@,
                    all.take(n - rest@.len()).filter(keep)[i],
                    #[trigger] out@[i],
                ),
        decreases rest.len(),
    {
        let ghost i = n - rest@.len();
        let t = rest.remove(0);
        let ghost tv = t;
        proof {
            reveal(Seq::filter);
            assert(rest@ =~= all.skip(i + 1));
            assert(all.take(i + 1).drop_last() =~= all.take(i));
            assert(tv == all[i]);
        }
        match listed_tool(server, t) {
            Some(s) => out.push(s),
            None => {},
        }
    }
    assert(all.take(n as int) =~= all);
    out
}

/// The tools of a server, as they join a registry.
pub fn as_tools(specs: &Vec<ToolSpec>) -> (r: Vec<ToolInfo>)
    ensures
        r@.len() == specs@.len(),
        forall|i: int|
            #![trigger r@[i]]
            0 <= i < r@.len() ==> {
                &&& r@[i].name@ == specs@[i].function.name@
                &&& r@[i].description@ == specs@[i].function.description@
                &&& r@[i].parameters == specs@[i].function.parameters
                &&& r@[i].kind == ToolKind::Execute
            },
{
    let mut out: Vec<ToolInfo> = Vec::new();
    let mut i: usize = 0;
    while i < specs.len()
        invariant
            i <= specs.len(),
            out@.len() == i,
            forall|k: int|
                #![trigger out@[k]]
                0 <= k < i ==> {
                    &&& out@[k].name@ == specs@[k].function.name@
                    &&& out@[k].description@ == specs@[k].function.description@
                    &&& out@[k].parameters == specs@[k].function.parameters
                    &&& out@[k].kind == ToolKind::Execute
                },
        decreases specs.len() - i,
    {
        out.push(
            ToolInfo {
                name: specs[i].function.name.clone(),
                description: specs[i].function.description.clone(),
                parameters: specs[i].function.parameters.clone(),
                kind: ToolKind::Execute,
            },
        );
        i += 1;
    }
    out
}

/// The arguments of a call, each cut to a few bytes.
pub open spec fn argument_list(members: Seq<(String, Json)>) -> Seq<Seq<char>> {
    members.map_values(
        |m: (String, Json)| m.0@ + "="@ + util::truncated(json_text(m.1), 40),
    )
}

/// One line about a call of a borrowed tool.
pub open spec fn borrowed_summary(name: Seq<char>, args: Json) -> Seq<char> {
    name + "("@ + (match args {
        Json::Object(m) => text::joined(argument_list(m@), ", "@),
        _ => ""@,
    }) + ")"@
}

/// One line about a call of a borrowed tool.
pub fn summarize(name: &str, args: &Json) -> (r: String)
    ensures
        r@ == borrowed_summary(name@, *args),
{
    let mut s = name.to_owned();
    s.append("(");
    match args {
        Json::Object(m) => {
            let mut parts: Vec<String> = Vec::new();
            let mut i: usize = 0;
            assert(text::views(parts@) =~= argument_list(m@).take(0));
            while i < m.len()
                invariant
                    i <= m.len(),
                    text::views(parts@) == argument_list(m@).take(i as int),
                decreases m.len() - i,
            {
                let mut part = m[i].0.clone();
                part.append("=");
                part.append(&util::truncate_text(&print_json(&m[i].1), 40));
                let ghost before = text::views(parts@);
                let ghost pv = part@;
                parts.push(part);
                assert(text::views(parts@) =~= before.push(pv));
                assert(argument_list(m@)[i as int] == pv);
                i += 1;
                assert(text::views(parts@) =~= argument_list(m@).take(i as int));
            }
            assert(argument_list(m@).take(m@.len() as int) =~= argument_list(m@));
            s.append(&text::join(&parts, ", "));
        },
        _ => {
            s.append("");
        },
    }
    s.append(")");
    s
}

// ---------------------------------------------------------------------------
// Results
// ---------------------------------------------------------------------------

/// The text of one block of a result. Blocks that are no text are described
/// rather than dropped, so the model knows something came back that it cannot
/// read.
pub open spec fn block_text(block: Json) -> Seq<char> {
    match str_field(block, "type"@) {
        None => "[unsupported content block: "@ + "?"@ + "]\n"@,
        Some(kind) => if kind == "text"@ {
            match str_field(block, "text"@) {
                Some(t) => t + "\n"@,
                None => Seq::empty(),
            }
        } else if kind == "image"@ {
            "["@ + text_of(block, "mimeType"@, "image"@)
                + " returned; images cannot be read as text]\n"@
        } else if kind == "resource"@ {
            "[resource: "@ + (match field(block, "resource"@) {
                Some(r) => text_of(r, "uri"@, "unknown"@),
                None => "unknown"@,
            }) + "]\n"@
        } else {
            "[unsupported content block: "@ + kind + "]\n"@
        },
    }
}

/// The texts of blocks, one behind the other.
pub open spec fn blocks_text(blocks: Seq<Json>) -> Seq<char>
    decreases blocks.len(),
{
    if blocks.len() == 0 {
        Seq::empty()
    } else {
        blocks_text(blocks.drop_last()) + block_text(blocks.last())
    }
}

/// The text of a result.
pub open spec fn content_text(result: Json) -> Seq<char> {
    match field(result, "content"@) {
        Some(Json::Array(blocks)) => {
            let all = blocks_text(blocks@);
            util::truncated(
                if text::trimmed(all).len() == 0 {
                    "(tool returned no content)"@
                } else {
                    all
                },
                MAX_RESULT_BYTES as nat,
            )
        },
        _ => util::truncated(json_pretty(result), MAX_RESULT_BYTES as nat),
    }
}

fn render_block(block: &Json) -> (r: String)
    ensures
        r@ == block_text(*block),
{
    let kind = match block.get_str("type") {
        Some(k) => k,
        None => {
            let mut s = "[unsupported content block: ".to_owned();
            s.append("?");
            s.append("]\n");
            return s;
        },
    };
    if text::same(&kind, "text") {
        match block.get_str("text") {
            Some(t) => {
                let mut s = t;
                s.append("\n");
                s
            },
            None => {
                let s = String::new();
                assert(s@ =~= Seq::<char>::empty());
                s
            },
        }
    } else if text::same(&kind, "image") {
        let mut s = "[".to_owned();
        s.append(&text_at(block, "mimeType", "image"));
        s.append(" returned; images cannot be read as text]\n");
        s
    } else if text::same(&kind, "resource") {
        let mut s = "[resource: ".to_owned();
        match block.get("resource") {
            Some(r) => {
                s.append(&text_at(r, "uri", "unknown"));
            },
            None => {
                s.append("unknown");
            },
        }
        s.append("]\n");
        s
    } else {
        let mut s = "[unsupported content block: ".to_owned();
        s.append(&kind);
        s.append("]\n");
        s
    }
}

/// Flatten the `content` array of a result into text. A result without one is
/// shown as it is.
pub fn render_content(result: &Json) -> (r: String)
    ensures
        r@ == content_text(*result),
{
    let blocks = match result.get("content") {
        Some(Json::Array(b)) => b,
        _ => {
            return util::truncate_text(&print_json_pretty(result), MAX_RESULT_BYTES);
        },
    };
    let mut out = String::new();
    let mut i: usize = 0;
    assert(out@ =~= Seq::<char>::empty());
    while i < blocks.len()
        invariant
            i <= blocks.len(),
            out@ == blocks_text(blocks@.take(i as int)),
        decreases blocks.len() - i,
    {
        assert(blocks@.take(i + 1).drop_last() =~= blocks@.take(i as int));
        out.append(&render_block(&blocks[i]));
        i += 1;
    }
    assert(blocks@.take(blocks@.len() as int) =~= blocks@);
    if text::trim(&out).as_str().is_empty() {
        out = "(tool returned no content)".to_owned();
    }
    util::truncate_text(&out, MAX_RESULT_BYTES)
}

/// How a call of a borrowed tool ended.
#[derive(Debug)]
pub enum CallEnd {
    /// The user interrupted it.
    Interrupted,
    /// It failed on the way.
    Failed(String),
    Answered(Json),
}

/// What is reported of a call of a borrowed tool.
pub open spec fn is_call_outcome(o: ToolOutcome, server: Seq<char>, end: CallEnd) -> bool {
    match end {
        CallEnd::Interrupted => crate::tools::fs::is_failure(
            o,
            "tool call interrupted by the user"@,
        ),
        CallEnd::Failed(e) => crate::tools::fs::is_failure(o, "MCP call failed: "@ + e@),
        CallEnd::Answered(value) => {
            &&& o.content@ == content_text(value)
            &&& o.is_error == (bool_field(value, "isError"@) == Some(true))
            &&& text::opt_view(o.display.summary) == Some("via "@ + server)
            &&& o.display.path is None
            &&& o.display.diff_stats is None
            &&& o.display.diff@.len() == 0
        },
    }
}

/// What is reported of a call of a borrowed tool. A failure on the way is
/// returned to the model as a tool error: aborting the turn would strand an
/// unanswered tool call.
pub fn outcome(server: &str, end: &CallEnd) -> (r: ToolOutcome)
    ensures
        is_call_outcome(r, server@, *end),
{
    match end {
        CallEnd::Interrupted => ToolOutcome::error("tool call interrupted by the user"),
        CallEnd::Failed(e) => {
            let mut s = "MCP call failed: ".to_owned();
            s.append(e);
            ToolOutcome::error(&s)
        },
        CallEnd::Answered(value) => {
            let failed = match value.get_bool("isError") {
                Some(b) => b,
                None => false,
            };
            let content = render_content(value);
            let o = if failed {
                ToolOutcome::error(&content)
            } else {
                ToolOutcome::ok(&content)
            };
            let mut summary = "via ".to_owned();
            summary.append(server);
            o.with_summary(&summary)
        },
    }
}

/// The names of the servers to start, in order. Disabled ones are skipped.
pub fn enabled(servers: &Table<McpServerConfig>) -> (r: Vec<String>)
    ensures
        text::views(r@) == servers.entries@.filter(
            |e: (String, McpServerConfig)| !e.1.disabled,
        ).map_values(|e: (String, McpServerConfig)| e.0@),
{
    let ghost keep = |e: (String, McpServerConfig)| !e.1.disabled;
    let ghost name = |e: (String, McpServerConfig)| e.0@;
    let ghost all = servers.entries@;
    let mut out: Vec<String> = Vec::new();
    let mut i: usize = 0;
    proof {
        reveal(Seq::filter);
    }
    assert(text::views(out@) =~= Seq::<Seq<char>>::empty());
    assert(all.take(0).filter(keep).map_values(name) =~= Seq::<Seq<char>>::empty());
    while i < servers.entries.len()
        invariant
            i <= servers.entries.len(),
            all == servers.entries@,
            keep == (|e: (String, McpServerConfig)| !e.1.disabled),
            name == (|e: (String, McpServerConfig)| e.0@),
            text::views(out@) == all.take(i as int).filter(keep).map_values(name),
        decreases servers.entries.len() - i,
    {
        proof {
            reveal(Seq::filter);
            assert(all.take(i + 1).drop_last() =~= all.take(i as int));
        }
        let ghost kept = all.take(i as int).filter(keep);
        if !servers.entries[i].1.disabled {
            let ghost before = text::views(out@);
            out.push(servers.entries[i].0.clone());
            assert(text::views(out@) =~= before.push(all[i as int].0@));
            assert(kept.push(all[i as int]).map_values(name) =~= kept.map_values(name).push(
                all[i as int].0@,
            ));
        }
        i += 1;
    }
    assert(all.take(all.len() as int) =~= all);
    out
}

} // verus!
