//! Tools that are neither filesystem nor shell: task tracking and web fetch.
use vstd::prelude::*;
use vstd::string::StringExecFns;
use crate::api::sse::{decode_lossy, utf8_lossy};
use crate::json::{field, str_field, Json};
use crate::text;
use crate::tools::fs::{call_line, call_text, is_failure};
use crate::tools::schema::{
    choice, is_schema, param, param_views, required_text, schema, str_views, text_or, Param,
    ParamView,
};
use crate::tools::{
    object_schema, status_glyph, TodoItem, TodoStatus, ToolContext, ToolInfo, ToolKind, ToolOutcome,
};
use crate::util;

verus! {

/// Cap on fetched page text handed to the model.
pub const MAX_FETCH_BYTES: usize = 98_304;

/// Cap on bytes read off the wire, applied *while* reading.
pub const MAX_DOWNLOAD_BYTES: usize = 8_388_608;

// ---------------------------------------------------------------------------
// todo_write
// ---------------------------------------------------------------------------

pub const TODO_WRITE_DESCRIPTION: &'static str = "Record or update the task list for the current piece of work. Use it for anything with three or more steps, and mark each task completed as soon as it is done.";

/// Lets the model keep an explicit plan.
///
/// It writes harness state only, so it is classified [`ToolKind::Meta`] and never
/// needs approval.
pub struct TodoWrite;

/// A task, as text.
pub struct TodoView {
    pub content: Seq<char>,
    pub status: TodoStatus,
}

impl View for TodoItem {
    type V = TodoView;

    open spec fn view(&self) -> TodoView {
        TodoView { content: self.content@, status: self.status }
    }
}

pub open spec fn todo_views(items: Seq<TodoItem>) -> Seq<TodoView> {
    items.map_values(|t: TodoItem| t@)
}

/// The status that a name stands for.
pub open spec fn status_named(s: Seq<char>) -> Option<TodoStatus> {
    if s == "pending"@ {
        Some(TodoStatus::Pending)
    } else if s == "in_progress"@ {
        Some(TodoStatus::InProgress)
    } else if s == "completed"@ {
        Some(TodoStatus::Completed)
    } else {
        None
    }
}

/// The task that an item of a call stands for, or what is wrong with it.
pub open spec fn todo_of(item: Json, i: int) -> Result<TodoView, Seq<char>> {
    match str_field(item, "content"@) {
        None => Err("todos["@ + text::decimal(i as nat) + "] is missing `content`"@),
        Some(content) => {
            let name = text_or(item, "status"@, "pending"@);
            match status_named(name) {
                Some(status) => Ok(TodoView { content, status }),
                None => Err(
                    "todos["@ + text::decimal(i as nat) + "] has unknown status `"@ + name
                        + "`; expected pending, in_progress or completed"@,
                ),
            }
        },
    }
}

/// The tasks that the items of a call stand for, or what is wrong with the first
/// that stands for none.
pub open spec fn todos_of(items: Seq<Json>) -> Result<Seq<TodoView>, Seq<char>>
    decreases items.len(),
{
    if items.len() == 0 {
        Ok(Seq::empty())
    } else {
        match todos_of(items.drop_last()) {
            Err(e) => Err(e),
            Ok(list) => match todo_of(items.last(), items.len() - 1) {
                Ok(t) => Ok(list.push(t)),
                Err(e) => Err(e),
            },
        }
    }
}

/// How many tasks have a status.
pub open spec fn count_status(items: Seq<TodoView>, status: TodoStatus) -> nat
    decreases items.len(),
{
    if items.len() == 0 {
        0
    } else {
        count_status(items.drop_last(), status) + if items.last().status == status {
            1nat
        } else {
            0
        }
    }
}

/// The list as it is shown.
pub open spec fn todo_lines(items: Seq<TodoView>) -> Seq<char>
    decreases items.len(),
{
    if items.len() == 0 {
        Seq::empty()
    } else {
        todo_lines(items.drop_last()) + status_glyph(items.last().status) + " "@
            + items.last().content + "\n"@
    }
}

/// `2/5 done`.
pub open spec fn progress_text(items: Seq<TodoView>) -> Seq<char> {
    text::decimal(count_status(items, TodoStatus::Completed)) + "/"@ + text::decimal(items.len())
        + " done"@
}

/// What is reported of an updated list.
pub open spec fn todo_report(items: Seq<TodoView>) -> Seq<char> {
    "Task list updated ("@ + progress_text(items) + ")\n"@ + todo_lines(items) + if count_status(
        items,
        TodoStatus::InProgress,
    ) > 1 {
        "\nNote: more than one task is in_progress. Keep exactly one active at a time.\n"@
    } else {
        Seq::empty()
    }
}

/// The items that a call gives.
pub open spec fn todo_items(args: Json) -> Option<Seq<Json>> {
    match field(args, "todos"@) {
        Some(Json::Array(a)) => Some(a@),
        _ => None,
    }
}

proof fn lemma_todos_error(items: Seq<Json>, i: int)
    requires
        0 <= i <= items.len(),
        todos_of(items.take(i)) is Err,
    ensures
        todos_of(items) == todos_of(items.take(i)),
    decreases items.len(),
{
    if i < items.len() {
        assert(items.drop_last().take(i) =~= items.take(i));
        lemma_todos_error(items.drop_last(), i);
    } else {
        assert(items.take(i) =~= items);
    }
}

fn parse_todo(item: &Json, i: usize) -> (r: Result<TodoItem, String>)
    ensures
        match todo_of(*item, i as int) {
            Ok(t) => r matches Ok(v) && v@ == t,
            Err(e) => r matches Err(v) && v@ == e,
        },
{
    let content = match item.get_str("content") {
        Some(c) => c,
        None => {
            let mut e = "todos[".to_owned();
            e.append(&text::number(i as u64));
            e.append("] is missing `content`");
            return Err(e);
        },
    };
    let name = crate::tools::schema::arg_str_or(item, "status", "pending");
    let status = if text::same(&name, "pending") {
        TodoStatus::Pending
    } else if text::same(&name, "in_progress") {
        TodoStatus::InProgress
    } else if text::same(&name, "completed") {
        TodoStatus::Completed
    } else {
        let mut e = "todos[".to_owned();
        e.append(&text::number(i as u64));
        e.append("] has unknown status `");
        e.append(&name);
        e.append("`; expected pending, in_progress or completed");
        return Err(e);
    };
    Ok(TodoItem { content, status })
}

fn parse_todos(items: &Vec<Json>) -> (r: Result<Vec<TodoItem>, String>)
    ensures
        match todos_of(items@) {
            Ok(list) => r matches Ok(v) && todo_views(v@) == list,
            Err(e) => r matches Err(v) && v@ == e,
        },
{
    let mut out: Vec<TodoItem> = Vec::new();
    let mut i: usize = 0;
    assert(items@.take(0) =~= Seq::<Json>::empty());
    assert(todo_views(out@) =~= Seq::<TodoView>::empty());
    while i < items.len()
        invariant
            i <= items@.len(),
            todos_of(items@.take(i as int)) == Ok::<Seq<TodoView>, Seq<char>>(todo_views(out@)),
        decreases items.len() - i,
    {
        assert(items@.take(i + 1).drop_last() =~= items@.take(i as int));
        match parse_todo(&items[i], i) {
            Ok(t) => {
                let ghost before = todo_views(out@);
                let ghost tv = t@;
                out.push(t);
                assert(todo_views(out@) =~= before.push(tv));
            },
            Err(e) => {
                proof {
                    lemma_todos_error(items@, i + 1);
                }
                return Err(e);
            },
        }
        i += 1;
    }
    assert(items@.take(items@.len() as int) =~= items@);
    Ok(out)
}

fn count_todos(items: &Vec<TodoItem>, status: TodoStatus) -> (r: usize)
    ensures
        r == count_status(todo_views(items@), status),
{
    let ghost all = todo_views(items@);
    let mut n: usize = 0;
    let mut i: usize = 0;
    while i < items.len()
        invariant
            i <= items@.len(),
            n <= i,
            all == todo_views(items@),
            n == count_status(all.take(i as int), status),
        decreases items.len() - i,
    {
        assert(all.take(i + 1).drop_last() =~= all.take(i as int));
        assert(all[i as int] == items@[i as int]@);
        if items[i].status == status {
            n += 1;
        }
        i += 1;
    }
    assert(all.take(all.len() as int) =~= all);
    n
}

fn render_todos(items: &Vec<TodoItem>) -> (r: String)
    ensures
        r@ == todo_lines(todo_views(items@)),
{
    let ghost all = todo_views(items@);
    let mut out = String::new();
    let mut i: usize = 0;
    while i < items.len()
        invariant
            i <= items@.len(),
            all == todo_views(items@),
            out@ == todo_lines(all.take(i as int)),
        decreases items.len() - i,
    {
        assert(all.take(i + 1).drop_last() =~= all.take(i as int));
        assert(all[i as int] == items@[i as int]@);
        out.append(items[i].status.glyph());
        out.append(" ");
        out.append(&items[i].content);
        out.append("\n");
        i += 1;
    }
    assert(all.take(all.len() as int) =~= all);
    out
}

/// The arguments that `todo_write` advertises.
pub open spec fn todo_write_params() -> Seq<ParamView> {
    seq![param("todos"@, "array"@, "The complete to-do list, replacing any previous one."@)]
}

/// The parts of a task.
pub open spec fn todo_params() -> Seq<ParamView> {
    seq![
        param("content"@, "string"@, "What needs doing."@),
        choice(
            "status"@,
            "string"@,
            "Keep exactly one task in_progress at a time."@,
            seq!["pending"@, "in_progress"@, "completed"@],
        ),
    ]
}

impl TodoWrite {
    pub fn name(&self) -> (r: &'static str)
        ensures
            r@ == "todo_write"@,
    {
        "todo_write"
    }

    pub fn kind(&self) -> (r: ToolKind)
        ensures
            r == ToolKind::Meta,
    {
        ToolKind::Meta
    }

    /// The tool as it is advertised.
    pub fn info(&self) -> (r: ToolInfo)
        ensures
            r.name@ == "todo_write"@,
            r.kind == ToolKind::Meta,
            r.description@ == TODO_WRITE_DESCRIPTION@,
            is_schema(*r.parameters, todo_write_params(), seq!["todos"@]),
            field(*r.parameters, "properties"@) matches Some(Json::Object(m)) && field(
                m@[0].1,
                "items"@,
            ) matches Some(item) && is_schema(item, todo_params(), seq!["content"@, "status"@]),
    {
        let params = vec![
                Param {
                    name: "content",
                    ty: "string",
                    description: "What needs doing.",
                    choices: Vec::new(),
                },
                Param {
                    name: "status",
                    ty: "string",
                    description: "Keep exactly one task in_progress at a time.",
                    choices: vec!["pending", "in_progress", "completed"],
                },
            ];
        let names: Vec<&'static str> = vec!["content", "status"];
        assert(param_views(params@) =~~= todo_params());
        assert(str_views(names@) =~= seq!["content"@, "status"@]);
        let item = schema(params, names);
        let ghost it = item;
        let mut members: Vec<(String, Json)> = Vec::new();
        members.push(
            (
                "description".to_owned(),
                Json::Str("The complete to-do list, replacing any previous one.".to_owned()),
            ),
        );
        members.push(("items".to_owned(), item));
        members.push(("type".to_owned(), Json::Str("array".to_owned())));
        proof {
            reveal_strlit("description");
            reveal_strlit("items");
            reveal_strlit("type");
            assert("description"@.len() == 11 && "items"@.len() == 5 && "type"@.len() == 4);
            reveal_with_fuel(crate::json::member, 4);
            assert(members@.skip(1)[0] == members@[1]);
            assert(members@.skip(1).skip(1)[0] == members@[2]);
            reveal_strlit("enum");
            assert("enum"@.len() == 4 && "enum"@[0] == 'e' && "type"@[0] == 't');
        }
        let list = Json::Object(members);
        assert(str_field(list, "type"@) == Some("array"@));
        assert(field(list, "enum"@) is None);
        assert(field(list, "items"@) == Some(it));
        let mut props: Vec<(String, Json)> = Vec::new();
        props.push(("todos".to_owned(), list));
        let mut required: Vec<String> = Vec::new();
        required.push("todos".to_owned());
        ToolInfo::new(
            "todo_write",
            TODO_WRITE_DESCRIPTION,
            object_schema(props, &required),
            ToolKind::Meta,
        )
    }

    pub fn summarize(&self, args: &Json) -> (r: String)
        ensures
            r@ == "TodoWrite("@ + text::decimal(
                match todo_items(*args) {
                    Some(items) => items.len(),
                    None => 0,
                },
            ) + " tasks)"@,
    {
        let n: usize = match args.get("todos") {
            Some(Json::Array(a)) => a.len(),
            _ => 0,
        };
        let mut out = "TodoWrite(".to_owned();
        out.append(&text::number(n as u64));
        out.append(" tasks)");
        out
    }

    /// Replaces the list. A list that cannot be read leaves the old one in place.
    pub fn run(&self, args: &Json, ctx: &mut ToolContext) -> (r: ToolOutcome)
        ensures
            final(ctx).workspace == old(ctx).workspace,
            final(ctx).read_files == old(ctx).read_files,
            match todo_items(*args) {
                None => final(ctx).todos == old(ctx).todos && is_failure(
                    r,
                    "missing required array argument `todos`"@,
                ),
                Some(items) => match todos_of(items) {
                    Err(e) => final(ctx).todos == old(ctx).todos && is_failure(r, e),
                    Ok(list) => {
                        &&& todo_views(final(ctx).todos@) == list
                        &&& !r.is_error
                        &&& r.content@ == todo_report(list)
                        &&& text::opt_view(r.display.summary) == Some(progress_text(list))
                        &&& r.display.path is None
                        &&& r.display.diff_stats is None
                        &&& r.display.diff@.len() == 0
                    },
                },
            },
    {
        let items = match args.get("todos") {
            Some(Json::Array(a)) => a,
            _ => {
                return ToolOutcome::error("missing required array argument `todos`");
            },
        };
        let parsed = match parse_todos(items) {
            Ok(p) => p,
            Err(e) => {
                return ToolOutcome::error(&e);
            },
        };
        let ghost list = todo_views(parsed@);
        assert(list.len() == parsed@.len());
        let active: usize = count_todos(&parsed, TodoStatus::InProgress);
        let done: usize = count_todos(&parsed, TodoStatus::Completed);
        let mut progress = text::number(done as u64);
        progress.append("/");
        progress.append(&text::number(parsed.len() as u64));
        progress.append(" done");
        let rendered = render_todos(&parsed);
        ctx.todos = parsed;
        let mut out = "Task list updated (".to_owned();
        out.append(&progress);
        out.append(")\n");
        out.append(&rendered);
        if active > 1 {
            out.append(
                "\nNote: more than one task is in_progress. Keep exactly one active at a time.\n",
            );
        } else {
            assert(out@ + Seq::<char>::empty() =~= out@);
        }
        ToolOutcome::ok(&out).with_summary(&progress)
    }
}

// ---------------------------------------------------------------------------
// web_fetch
// ---------------------------------------------------------------------------

pub const WEB_FETCH_DESCRIPTION: &'static str = "Fetch a web page and return its text content with HTML markup stripped. Useful for reading documentation and API references.";

/// Fetches a URL and returns it as plain text: no JavaScript, no summary.
pub struct WebFetch;

/// Whether a URL is one of the web.
pub open spec fn is_web_url(url: Seq<char>) -> bool {
    text::starts_with(url, "http://"@) || text::starts_with(url, "https://"@)
}

/// The arguments that `web_fetch` advertises.
pub open spec fn web_fetch_params() -> Seq<ParamView> {
    seq![
        param(
            "url"@,
            "string"@,
            "Absolute http or https URL to fetch."@,
        ),
    ]
}

/// Why a page could not be had.
#[derive(Debug)]
pub enum FetchFailure {
    Interrupted,
    /// The request could not be sent.
    NotSent(String),
    /// The server answered with this status.
    Status(String),
    /// The body could not be read to its end.
    Broken(String),
}

/// What is said of a page that could not be had.
pub open spec fn fetch_failure_text(url: Seq<char>, failure: FetchFailure) -> Seq<char> {
    match failure {
        FetchFailure::Interrupted => "fetch interrupted by the user"@,
        FetchFailure::NotSent(reason) => "cannot fetch "@ + url + ": "@ + reason@,
        FetchFailure::Status(status) => url + " returned HTTP "@ + status@,
        FetchFailure::Broken(reason) => "cannot read body of "@ + url + ": "@ + reason@,
    }
}

impl WebFetch {
    pub fn name(&self) -> (r: &'static str)
        ensures
            r@ == "web_fetch"@,
    {
        "web_fetch"
    }

    pub fn kind(&self) -> (r: ToolKind)
        ensures
            r == ToolKind::Network,
    {
        ToolKind::Network
    }

    /// The tool as it is advertised.
    pub fn info(&self) -> (r: ToolInfo)
        ensures
            r.name@ == "web_fetch"@,
            r.kind == ToolKind::Network,
            r.description@ == WEB_FETCH_DESCRIPTION@,
            is_schema(*r.parameters, web_fetch_params(), seq!["url"@]),
    {
        let params = vec![
            Param {
                name: "url",
                ty: "string",
                description: "Absolute http or https URL to fetch.",
                choices: Vec::new(),
            },
        ];
        let required = vec!["url"];
        assert(param_views(params@) =~~= web_fetch_params());
        assert(str_views(required@) =~= seq!["url"@]);
        ToolInfo::new(
            "web_fetch",
            WEB_FETCH_DESCRIPTION,
            schema(params, required),
            ToolKind::Network,
        )
    }

    pub fn summarize(&self, args: &Json) -> (r: String)
        ensures
            r@ == call_text("WebFetch"@, text_or(*args, "url"@, ""@)),
    {
        call_line("WebFetch", &crate::tools::schema::arg_str_or(args, "url", ""))
    }

    /// The URL that a call asks to fetch.
    pub fn request(&self, args: &Json) -> (r: Result<String, ToolOutcome>)
        ensures
            match required_text(*args, "url"@) {
                Err(e) => r matches Err(o) && is_failure(o, e),
                Ok(url) => if is_web_url(url) {
                    r matches Ok(u) && u@ == url
                } else {
                    r matches Err(o) && is_failure(
                        o,
                        "`"@ + url
                            + "` is not an http or https URL. Only web URLs can be fetched."@,
                    )
                },
            },
    {
        let url = match crate::tools::schema::arg_str(args, "url") {
            Ok(u) => u,
            Err(e) => {
                return Err(ToolOutcome::error(&e));
            },
        };
        if !text::begins(&url, "http://") && !text::begins(&url, "https://") {
            let mut e = "`".to_owned();
            e.append(&url);
            e.append("` is not an http or https URL. Only web URLs can be fetched.");
            return Err(ToolOutcome::error(&e));
        }
        Ok(url)
    }

    /// Adds a chunk of the body to what was read. Returns whether the limit is
    /// reached; what exceeds it is dropped.
    pub fn take_chunk(&self, collected: &mut Vec<u8>, chunk: &[u8]) -> (r: bool)
        requires
            old(collected)@.len() <= MAX_DOWNLOAD_BYTES,
        ensures
            r == (old(collected)@.len() + chunk@.len() >= MAX_DOWNLOAD_BYTES),
            final(collected)@ == (if r {
                (old(collected)@ + chunk@).take(MAX_DOWNLOAD_BYTES as int)
            } else {
                old(collected)@ + chunk@
            }),
    {
        let ghost start = collected@;
        let mut i: usize = 0;
        assert(start + chunk@.take(0) =~= start);
        while i < chunk.len() && collected.len() < MAX_DOWNLOAD_BYTES
            invariant
                i <= chunk@.len(),
                collected@.len() <= MAX_DOWNLOAD_BYTES,
                collected@ == start + chunk@.take(i as int),
            decreases chunk.len() - i,
        {
            collected.push(chunk[i]);
            i += 1;
            assert(collected@ =~= start + chunk@.take(i as int));
        }
        let full = collected.len() >= MAX_DOWNLOAD_BYTES;
        proof {
            if full {
                assert(collected@ =~= (start + chunk@).take(MAX_DOWNLOAD_BYTES as int));
            } else {
                assert(chunk@.take(i as int) =~= chunk@);
            }
        }
        full
    }

    /// What is reported where a page could not be had.
    pub fn failed(&self, url: &str, failure: &FetchFailure) -> (r: ToolOutcome)
        ensures
            is_failure(r, fetch_failure_text(url@, *failure)),
    {
        let mut s = String::new();
        match failure {
            FetchFailure::Interrupted => {
                s.append("fetch interrupted by the user");
            },
            FetchFailure::NotSent(reason) => {
                s.append("cannot fetch ");
                s.append(url);
                s.append(": ");
                s.append(reason);
            },
            FetchFailure::Status(status) => {
                s.append(url);
                s.append(" returned HTTP ");
                s.append(status);
            },
            FetchFailure::Broken(reason) => {
                s.append("cannot read body of ");
                s.append(url);
                s.append(": ");
                s.append(reason);
            },
        }
        assert(s@ =~= fetch_failure_text(url@, *failure));
        ToolOutcome::error(&s)
    }

    /// What is reported of a page, of which `bytes` is the body.
    pub fn run(&self, url: &str, bytes: &[u8]) -> (r: ToolOutcome)
        ensures
            ({
                let page = page_text(utf8_lossy(bytes@));
                &&& !r.is_error
                &&& r.content@ == util::truncated(page, MAX_FETCH_BYTES as nat)
                &&& text::opt_view(r.display.summary) == Some(
                    text::decimal(text::byte_count(page)) + " chars from "@ + url@,
                )
                &&& r.display.path is None
                &&& r.display.diff_stats is None
                &&& r.display.diff@.len() == 0
            }),
    {
        let page = strip_html(&decode_lossy(bytes));
        let mut summary = text::number(text::byte_len(&page) as u64);
        summary.append(" chars from ");
        summary.append(url);
        ToolOutcome::ok(&util::truncate_text(&page, MAX_FETCH_BYTES)).with_summary(&summary)
    }
}

// ---------------------------------------------------------------------------
// HTML
// ---------------------------------------------------------------------------

/// A letter of the Latin alphabet in lower case; other characters stay.
pub open spec fn ascii_lower(c: char) -> char {
    if 'A' <= c <= 'Z' {
        ((c as u32) + 32) as char
    } else {
        c
    }
}

/// Whether `pat` stands in `s` at position `i`, whatever the case of the letters.
pub open spec fn occurs_ci(s: Seq<char>, pat: Seq<char>, i: int) -> bool {
    &&& 0 <= i
    &&& i + pat.len() <= s.len()
    &&& forall|k: int|
        0 <= k < pat.len() ==> ascii_lower(#[trigger] s[i + k]) == ascii_lower(pat[k])
}

/// The first position at or after `from` where `pat` stands, whatever the case.
pub open spec fn found_ci(s: Seq<char>, pat: Seq<char>, from: int) -> Option<int>
    decreases s.len() + 1 - from,
{
    if from < 0 || from + pat.len() > s.len() {
        None
    } else if occurs_ci(s, pat, from) {
        Some(from)
    } else {
        found_ci(s, pat, from + 1)
    }
}

/// The position of the first `>` at or after `from`.
pub open spec fn tag_end(s: Seq<char>, from: int) -> Option<int>
    decreases s.len() - from,
{
    if from < 0 || from >= s.len() {
        None
    } else if s[from] == '>' {
        Some(from)
    } else {
        tag_end(s, from + 1)
    }
}

/// What a search finds lies within the text.
pub proof fn lemma_found_ci(s: Seq<char>, pat: Seq<char>, from: int)
    ensures
        found_ci(s, pat, from) matches Some(e) ==> from <= e && e + pat.len() <= s.len(),
    decreases s.len() + 1 - from,
{
    if from < 0 || from + pat.len() > s.len() {
    } else if !occurs_ci(s, pat, from) {
        lemma_found_ci(s, pat, from + 1);
    }
}

/// The end of a tag lies within the text.
pub proof fn lemma_tag_end(s: Seq<char>, from: int)
    ensures
        tag_end(s, from) matches Some(e) ==> from <= e < s.len(),
    decreases s.len() - from,
{
    if 0 <= from < s.len() && s[from] != '>' {
        lemma_tag_end(s, from + 1);
    }
}

/// The text of a page from position `i` on: scripts and styles are dropped with
/// their bodies, any other tag becomes a line break.
pub open spec fn without_tags(s: Seq<char>, i: int) -> Seq<char>
    decreases s.len() - i,
{
    if i < 0 || i >= s.len() {
        Seq::empty()
    } else if s[i] != '<' {
        seq![s[i]] + without_tags(s, i + 1)
    } else if occurs_ci(s, "<script"@, i) {
        match found_ci(s, "</script>"@, i) {
            Some(e) => {
                proof {
                    lemma_found_ci(s, "</script>"@, i);
                    reveal_strlit("</script>");
                }
                without_tags(s, e + 9)
            },
            None => Seq::empty(),
        }
    } else if occurs_ci(s, "<style"@, i) {
        match found_ci(s, "</style>"@, i) {
            Some(e) => {
                proof {
                    lemma_found_ci(s, "</style>"@, i);
                    reveal_strlit("</style>");
                }
                without_tags(s, e + 8)
            },
            None => Seq::empty(),
        }
    } else {
        match tag_end(s, i) {
            Some(e) => {
                proof {
                    lemma_tag_end(s, i);
                }
                seq!['\n'] + without_tags(s, e + 1)
            },
            None => seq!['\n'],
        }
    }
}

/// Text with the common character references replaced.
pub open spec fn decoded(s: Seq<char>) -> Seq<char> {
    let a = text::replaced(s, "&nbsp;"@, " "@);
    let b = text::replaced(a, "&amp;"@, "&"@);
    let c = text::replaced(b, "&lt;"@, "<"@);
    let d = text::replaced(c, "&gt;"@, ">"@);
    let e = text::replaced(d, "&quot;"@, "\""@);
    text::replaced(e, "&#39;"@, "'"@)
}

/// The lines trimmed, with each run of blank lines reduced to one, and whether
/// the last line was blank.
pub open spec fn collapsed_lines(lines: Seq<Seq<char>>) -> (Seq<char>, bool)
    decreases lines.len(),
{
    if lines.len() == 0 {
        (Seq::empty(), false)
    } else {
        let (before, blank) = collapsed_lines(lines.drop_last());
        let t = text::trimmed(lines.last());
        if t.len() == 0 && blank {
            (before, true)
        } else {
            (before + t + "\n"@, t.len() == 0)
        }
    }
}

/// A page reduced to readable text.
pub open spec fn page_text(html: Seq<char>) -> Seq<char> {
    text::trimmed(collapsed_lines(text::lines_of(decoded(without_tags(html, 0)))).0)
}

fn lower(c: char) -> (r: char)
    ensures
        r == ascii_lower(c),
{
    if 'A' <= c && c <= 'Z' {
        ((c as u8) + 32) as char
    } else {
        c
    }
}

fn stands_ci(v: &Vec<char>, pat: &Vec<char>, i: usize) -> (r: bool)
    ensures
        r == occurs_ci(v@, pat@, i as int),
{
    if i > v.len() || pat.len() > v.len() - i {
        return false;
    }
    let mut k: usize = 0;
    while k < pat.len()
        invariant
            i + pat.len() <= v.len(),
            k <= pat.len(),
            forall|j: int| 0 <= j < k ==> ascii_lower(#[trigger] v@[i + j]) == ascii_lower(pat@[j]),
        decreases pat.len() - k,
    {
        if lower(v[i + k]) != lower(pat[k]) {
            return false;
        }
        k += 1;
    }
    true
}

fn seek_ci(v: &Vec<char>, pat: &Vec<char>, from: usize) -> (r: Option<usize>)
    requires
        from <= v.len(),
        pat.len() > 0,
    ensures
        match r {
            Some(i) => found_ci(v@, pat@, from as int) == Some(i as int) && from <= i && i
                + pat.len() <= v.len(),
            None => found_ci(v@, pat@, from as int) is None,
        },
{
    let mut i: usize = from;
    while i < v.len() && pat.len() <= v.len() - i
        invariant
            from <= i <= v.len(),
            found_ci(v@, pat@, from as int) == found_ci(v@, pat@, i as int),
        decreases v.len() - i,
    {
        if stands_ci(v, pat, i) {
            return Some(i);
        }
        i += 1;
    }
    None
}

fn seek_tag_end(v: &Vec<char>, from: usize) -> (r: Option<usize>)
    ensures
        match r {
            Some(i) => tag_end(v@, from as int) == Some(i as int) && from <= i < v.len(),
            None => tag_end(v@, from as int) is None,
        },
{
    let mut i: usize = from;
    while i < v.len()
        invariant
            from <= i,
            tag_end(v@, from as int) == tag_end(v@, i as int),
        decreases v.len() - i,
    {
        if v[i] == '>' {
            return Some(i);
        }
        i += 1;
    }
    None
}

fn strip_tags(html: &str) -> (r: String)
    ensures
        r@ == without_tags(html@, 0),
{
    let v = text::chars_of(html);
    let script = text::chars_of("<script");
    let script_end = text::chars_of("</script>");
    let style = text::chars_of("<style");
    let style_end = text::chars_of("</style>");
    proof {
        reveal_strlit("</script>");
        reveal_strlit("</style>");
    }
    let mut out = String::new();
    let mut i: usize = 0;
    let ghost whole = without_tags(v@, 0);
    assert(out@ + whole =~= whole);
    while i < v.len()
        invariant
            i <= v.len(),
            script@ == "<script"@,
            script_end@ == "</script>"@,
            style@ == "<style"@,
            style_end@ == "</style>"@,
            script_end@.len() == 9,
            style_end@.len() == 8,
            out@ + without_tags(v@, i as int) == whole,
        decreases v.len() - i,
    {
        let ghost before = out@;
        let ghost rest = without_tags(v@, i as int);
        if v[i] != '<' {
            out.push(v[i]);
            i += 1;
            assert(out@ + without_tags(v@, i as int) =~= before + rest);
        } else if stands_ci(&v, &script, i) {
            match seek_ci(&v, &script_end, i) {
                Some(e) => {
                    i = e + 9;
                },
                None => {
                    i = v.len();
                },
            }
        } else if stands_ci(&v, &style, i) {
            match seek_ci(&v, &style_end, i) {
                Some(e) => {
                    i = e + 8;
                },
                None => {
                    i = v.len();
                },
            }
        } else {
            let end = seek_tag_end(&v, i);
            out.push('\n');
            match end {
                Some(e) => {
                    i = e + 1;
                    assert(out@ + without_tags(v@, i as int) =~= before + rest);
                },
                None => {
                    i = v.len();
                    assert(out@ + without_tags(v@, i as int) =~= before + rest);
                },
            }
        }
    }
    assert(out@ + without_tags(v@, i as int) =~= out@);
    out
}

fn decode_references(s: &str) -> (r: String)
    ensures
        r@ == decoded(s@),
{
    proof {
        reveal_strlit("&nbsp;");
        reveal_strlit("&amp;");
        reveal_strlit("&lt;");
        reveal_strlit("&gt;");
        reveal_strlit("&quot;");
        reveal_strlit("&#39;");
    }
    let a = text::replace(s, "&nbsp;", " ");
    let b = text::replace(&a, "&amp;", "&");
    let c = text::replace(&b, "&lt;", "<");
    let d = text::replace(&c, "&gt;", ">");
    let e = text::replace(&d, "&quot;", "\"");
    text::replace(&e, "&#39;", "'")
}

/// Reduce HTML to readable text.
///
/// `script` and `style` bodies are dropped wholesale, tags become line breaks,
/// and runs of blank lines are collapsed.
pub fn strip_html(html: &str) -> (r: String)
    ensures
        r@ == page_text(html@),
{
    let plain = decode_references(&strip_tags(html));
    let lines = text::lines(&plain);
    let ghost all = text::lines_of(plain@);
    let mut result = String::new();
    let mut blank = false;
    let mut i: usize = 0;
    while i < lines.len()
        invariant
            i <= lines@.len(),
            all == text::views(lines@),
            (result@, blank) == collapsed_lines(all.take(i as int)),
        decreases lines.len() - i,
    {
        proof {
            assert(all.take(i + 1).drop_last() =~= all.take(i as int));
            assert(all[i as int] == lines@[i as int]@);
        }
        let t = text::trim(&lines[i]);
        let empty = t.as_str().is_empty();
        if !(empty && blank) {
            result.append(&t);
            result.append("\n");
        }
        blank = empty;
        i += 1;
    }
    assert(all.take(all.len() as int) =~= all);
    text::trim(&result)
}

/// The body of a script never reaches the text: what stands between its opening
/// and the first closing tag after it is passed over.
pub proof fn law_scripts_are_dropped(s: Seq<char>, i: int, e: int)
    requires
        0 <= i < s.len(),
        s[i] == '<',
        occurs_ci(s, "<script"@, i),
        found_ci(s, "</script>"@, i) == Some(e),
    ensures
        without_tags(s, i) == without_tags(s, e + 9),
{
}

/// The text of a page neither begins nor ends with white space.
pub proof fn law_page_text_is_trimmed(html: Seq<char>)
    ensures
        page_text(html).len() > 0 ==> !text::is_white(page_text(html)[0]) && !text::is_white(
            page_text(html).last(),
        ),
{
    let s = collapsed_lines(text::lines_of(decoded(without_tags(html, 0)))).0;
    text::lemma_trimmed_start(s);
    text::lemma_trimmed_end(text::trimmed_start(s));
}

} // verus!
