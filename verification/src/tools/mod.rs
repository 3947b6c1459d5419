//! What the agent can do: the kinds of tools, their registry and their results.
pub mod edit;
pub mod fs;
pub mod misc;
pub mod schema;
pub mod search;
pub mod shell;

use std::sync::Arc;
use vstd::prelude::*;
use vstd::string::StringExecFns;
use crate::api::types::{FunctionSpec, ToolSpec};
use crate::json::Json;
use crate::table::Table;
use crate::text;
use crate::util::DiffLine;

verus! {

/// How much damage a tool can do. Drives the default permission decision.
#[derive(Debug, Clone, Copy, PartialEq, Eq, Structural)]
pub enum ToolKind {
    /// Observes the filesystem without changing it.
    Read,
    /// Creates or modifies files.
    Edit,
    /// Runs arbitrary commands. The most dangerous class.
    Execute,
    /// Reaches the network.
    Network,
    /// Changes only harness-internal state (todo list, plan).
    Meta,
}

/// Whether a class of tools changes anything outside the harness.
pub open spec fn kind_mutates(kind: ToolKind) -> bool {
    kind == ToolKind::Edit || kind == ToolKind::Execute
}

impl ToolKind {
    /// Whether this class mutates anything outside the harness. Plan mode
    /// refuses everything for which this is true.
    pub fn mutates(self) -> (r: bool)
        ensures
            r == kind_mutates(self),
    {
        matches!(self, ToolKind::Edit | ToolKind::Execute)
    }
}


/// Structured detail for the UI, alongside the plain text sent to the model.
///
/// The model gets prose; the human gets a rendered diff or a file list.
#[derive(Debug)]
pub struct ToolDisplay {
    /// Path the operation touched, for the header line.
    pub path: Option<String>,
    /// `(added, removed)` line counts for edits.
    pub diff_stats: Option<(usize, usize)>,
    /// Unified diff to render under the header.
    pub diff: Vec<DiffLine>,
    /// One-line summary, e.g. "142 lines" or "7 matches in 3 files".
    pub summary: Option<String>,
}

impl Default for ToolDisplay {
    fn default() -> (r: Self)
        ensures
            no_detail(r),
    {
        ToolDisplay { path: None, diff_stats: None, diff: Vec::new(), summary: None }
    }
}

/// Whether there is nothing to show beside the text.
pub open spec fn no_detail(d: ToolDisplay) -> bool {
    d.path is None && d.diff_stats is None && d.diff@.len() == 0 && d.summary is None
}

/// The result of running a tool.
#[derive(Debug)]
pub struct ToolOutcome {
    /// Text handed back to the model as the tool result.
    pub content: String,
    /// Extra detail for rendering. Never seen by the model.
    pub display: ToolDisplay,
    /// True when the tool failed. Errors are still returned to the model as
    /// tool results rather than aborting the turn.
    pub is_error: bool,
}

impl ToolOutcome {
    pub fn ok(content: &str) -> (r: Self)
        ensures
            r.content@ == content@,
            no_detail(r.display),
            !r.is_error,
    {
        ToolOutcome {
            content: content.to_owned(),
            display: ToolDisplay::default(),
            is_error: false,
        }
    }

    pub fn error(content: &str) -> (r: Self)
        ensures
            r.content@ == content@,
            no_detail(r.display),
            r.is_error,
    {
        ToolOutcome { content: content.to_owned(), display: ToolDisplay::default(), is_error: true }
    }

    pub fn with_display(self, display: ToolDisplay) -> (r: Self)
        ensures
            r == (ToolOutcome { display, ..self }),
    {
        let mut o = self;
        o.display = display;
        o
    }

    pub fn with_summary(self, summary: &str) -> (r: Self)
        ensures
            r.content == self.content,
            r.is_error == self.is_error,
            r.display.path == self.display.path,
            r.display.diff_stats == self.display.diff_stats,
            r.display.diff == self.display.diff,
            text::opt_view(r.display.summary) == Some(summary@),
    {
        let mut o = self;
        o.display.summary = Some(summary.to_owned());
        o
    }
}

/// A tracked task in the model's to-do list.
#[derive(Debug, PartialEq, Eq)]
pub struct TodoItem {
    pub content: String,
    pub status: TodoStatus,
}

#[derive(Debug, Clone, Copy, PartialEq, Eq, Structural)]
pub enum TodoStatus {
    Pending,
    InProgress,
    Completed,
}

/// The mark of a status in the list.
pub open spec fn status_glyph(s: TodoStatus) -> Seq<char> {
    match s {
        TodoStatus::Pending => "\u{2610}"@,
        TodoStatus::InProgress => "\u{25d0}"@,
        TodoStatus::Completed => "\u{2611}"@,
    }
}

impl TodoStatus {
    pub fn glyph(self) -> (r: &'static str)
        ensures
            r@ == status_glyph(self),
    {
        match self {
            TodoStatus::Pending => "\u{2610}",
            TodoStatus::InProgress => "\u{25d0}",
            TodoStatus::Completed => "\u{2611}",
        }
    }
}

// ---------------------------------------------------------------------------
// Shared state
// ---------------------------------------------------------------------------

/// State every tool invocation can reach: the root, what was read and when, and
/// the to-do list.
#[derive(Debug)]
pub struct ToolContext {
    /// Root the agent is confined to.
    pub workspace: String,
    /// Modification times captured when a file was last read, in nanoseconds
    /// from the Unix epoch, by the file's canonical path.
    ///
    /// The edit tools refuse to write a file that changed since the model read
    /// it, so that edits made in the meantime are not overwritten.
    pub read_files: Table<i128>,
    /// The model's current to-do list.
    pub todos: Vec<TodoItem>,
}

/// What the disk says of a file.
#[derive(Debug, Clone, Copy)]
pub struct FileStamp {
    /// When the file was modified, where that is known.
    pub modified: Option<i128>,
}

/// Why a file may not be edited, where it may not. `now` is absent where there
/// is no such file.
pub open spec fn staleness(
    stamps: Map<Seq<char>, i128>,
    shown: Seq<char>,
    key: Seq<char>,
    now: Option<FileStamp>,
) -> Option<Seq<char>> {
    match now {
        None => None,
        Some(stamp) => if !stamps.contains_key(key) {
            Some(
                shown
                    + " has not been read in this session. Read it first so the edit applies to its current contents."@,
            )
        } else {
            match stamp.modified {
                Some(t) => if t > stamps[key] {
                    Some(
                        shown
                            + " changed on disk after it was read. Read it again before editing, or the change will be overwritten."@,
                    )
                } else {
                    None
                },
                None => None,
            }
        },
    }
}

impl ToolContext {
    pub open spec fn wf(&self) -> bool {
        self.read_files.wf()
    }

    pub fn new(workspace: &str) -> (r: Self)
        ensures
            r.wf(),
            r.workspace@ == workspace@,
            r.read_files@ == Map::<Seq<char>, i128>::empty(),
            r.todos@.len() == 0,
    {
        ToolContext {
            workspace: workspace.to_owned(),
            read_files: Table::new(),
            todos: Vec::new(),
        }
    }

    /// Record that the file of the canonical path `key` was read, so a later
    /// edit can verify freshness. Without a modification time nothing is
    /// recorded.
    pub fn mark_read(&mut self, key: &str, modified: Option<i128>)
        requires
            old(self).wf(),
        ensures
            final(self).wf(),
            final(self).workspace == old(self).workspace,
            final(self).todos == old(self).todos,
            final(self).read_files@ == (match modified {
                Some(t) => old(self).read_files@.insert(key@, t),
                None => old(self).read_files@,
            }),
    {
        match modified {
            Some(t) => {
                self.read_files.insert(key.to_owned(), t);
            },
            None => {},
        }
    }

    /// Error message if a file was never read, or changed since it was. `None`
    /// when the edit is safe to proceed, as for a file that does not exist yet.
    pub fn staleness_error(&self, shown: &str, key: &str, now: Option<FileStamp>) -> (r: Option<
        String,
    >)
        requires
            self.wf(),
        ensures
            text::opt_view(r) == staleness(self.read_files@, shown@, key@, now),
    {
        match now {
            None => None,
            Some(stamp) => match self.read_files.get(key) {
                None => {
                    let mut out = shown.to_owned();
                    out.append(
                        " has not been read in this session. Read it first so the edit applies to its current contents.",
                    );
                    Some(out)
                },
                Some(seen) => match stamp.modified {
                    Some(t) => {
                        if t > *seen {
                            let mut out = shown.to_owned();
                            out.append(
                                " changed on disk after it was read. Read it again before editing, or the change will be overwritten.",
                            );
                            Some(out)
                        } else {
                            None
                        }
                    },
                    None => None,
                },
            },
        }
    }
}

/// A file may be edited exactly where it does not exist, or was read and has not
/// changed since.
pub proof fn law_edits_need_a_fresh_read(
    stamps: Map<Seq<char>, i128>,
    shown: Seq<char>,
    key: Seq<char>,
    stamp: FileStamp,
)
    ensures
        staleness(stamps, shown, key, None) is None,
        (staleness(stamps, shown, key, Some(stamp)) is None) == (stamps.contains_key(key) && (
        stamp.modified matches Some(t) ==> t <= stamps[key])),
{
}

/// Reading a file makes it editable until it changes.
pub proof fn law_reading_permits_editing(
    stamps: Map<Seq<char>, i128>,
    shown: Seq<char>,
    key: Seq<char>,
    t: i128,
)
    ensures
        staleness(stamps.insert(key, t), shown, key, Some(FileStamp { modified: Some(t) })) is None,
{
}

// ---------------------------------------------------------------------------
// The registry
// ---------------------------------------------------------------------------

/// Something the model can invoke, as it is advertised.
#[derive(Debug)]
pub struct ToolInfo {
    /// Name as it appears on the wire. Unique within a registry.
    pub name: String,
    pub description: String,
    /// The JSON schema of the arguments.
    pub parameters: Arc<Json>,
    /// Danger classification, consumed by the permission engine.
    pub kind: ToolKind,
}

impl ToolInfo {
    pub fn new(name: &str, description: &str, parameters: Json, kind: ToolKind) -> (r: Self)
        ensures
            r.name@ == name@,
            r.description@ == description@,
            *r.parameters == parameters,
            r.kind == kind,
    {
        ToolInfo {
            name: name.to_owned(),
            description: description.to_owned(),
            parameters: Arc::new(parameters),
            kind,
        }
    }

    /// Whether concurrent invocations are safe. Read-only tools run in parallel
    /// when the model requests several at once; anything that mutates is
    /// serialized so two edits to the same file cannot interleave.
    pub fn parallel_safe(&self) -> (r: bool)
        ensures
            r == (self.kind == ToolKind::Read),
    {
        self.kind == ToolKind::Read
    }
}

/// The set of tools available to one agent.
#[derive(Debug)]
pub struct ToolRegistry {
    pub tools: Vec<Arc<ToolInfo>>,
}

/// The names of tools, in order.
pub open spec fn tool_names(tools: Seq<Arc<ToolInfo>>) -> Seq<Seq<char>> {
    tools.map_values(|t: Arc<ToolInfo>| t.name@)
}

/// The first tool of a name, at or after `from`.
pub open spec fn tool_from(tools: Seq<Arc<ToolInfo>>, name: Seq<char>, from: int) -> Option<int>
    decreases tools.len() - from,
{
    if from < 0 || from >= tools.len() {
        None
    } else if tools[from].name@ == name {
        Some(from)
    } else {
        tool_from(tools, name, from + 1)
    }
}

/// The tools with one more. One with the same name is replaced.
pub open spec fn registered(
    tools: Seq<Arc<ToolInfo>>,
    tool: Arc<ToolInfo>,
) -> Seq<Arc<ToolInfo>> {
    match tool_from(tools, tool.name@, 0) {
        Some(i) => tools.update(i, tool),
        None => tools.push(tool),
    }
}

/// What a model is told of the tools.
pub open spec fn advertises(spec: ToolSpec, tool: ToolInfo) -> bool {
    &&& spec.kind@ == "function"@
    &&& spec.function.name@ == tool.name@
    &&& spec.function.description@ == tool.description@
    &&& spec.function.parameters == tool.parameters
}

proof fn lemma_tool_from(tools: Seq<Arc<ToolInfo>>, name: Seq<char>, from: int)
    requires
        0 <= from,
    ensures
        match tool_from(tools, name, from) {
            Some(i) => from <= i < tools.len() && tools[i].name@ == name,
            None => forall|j: int| from <= j < tools.len() ==> (#[trigger] tools[j]).name@ != name,
        },
    decreases tools.len() - from,
{
    if from < tools.len() && tools[from].name@ != name {
        lemma_tool_from(tools, name, from + 1);
    }
}

/// The names of the built-in tools, in the order in which they are advertised.
pub open spec fn builtin_names() -> Seq<Seq<char>> {
    seq![
        "read_file"@,
        "write_file"@,
        "edit_file"@,
        "list_files"@,
        "glob"@,
        "grep"@,
        "bash"@,
        "bash_output"@,
        "kill_shell"@,
        "todo_write"@,
        "web_fetch"@,
    ]
}

/// How much damage each of the built-in tools can do.
pub open spec fn builtin_kinds() -> Seq<ToolKind> {
    seq![
        ToolKind::Read,
        ToolKind::Edit,
        ToolKind::Edit,
        ToolKind::Read,
        ToolKind::Read,
        ToolKind::Read,
        ToolKind::Execute,
        ToolKind::Read,
        ToolKind::Execute,
        ToolKind::Meta,
        ToolKind::Network,
    ]
}

/// What a model is told of each of the built-in tools.
pub open spec fn builtin_descriptions() -> Seq<Seq<char>> {
    seq![
        fs::READ_FILE_DESCRIPTION@,
        fs::WRITE_FILE_DESCRIPTION@,
        fs::EDIT_FILE_DESCRIPTION@,
        fs::LIST_FILES_DESCRIPTION@,
        search::GLOB_DESCRIPTION@,
        search::GREP_DESCRIPTION@,
        shell::BASH_DESCRIPTION@,
        shell::BASH_OUTPUT_DESCRIPTION@,
        shell::KILL_SHELL_DESCRIPTION@,
        misc::TODO_WRITE_DESCRIPTION@,
        misc::WEB_FETCH_DESCRIPTION@,
    ]
}

/// The arguments of each of the built-in tools.
pub open spec fn builtin_params() -> Seq<Seq<schema::ParamView>> {
    seq![
        fs::read_file_params(),
        fs::write_file_params(),
        fs::edit_file_params(),
        fs::list_files_params(),
        search::glob_params(),
        search::grep_params(),
        shell::bash_params(),
        shell::bash_output_params(),
        shell::kill_shell_params(),
        misc::todo_write_params(),
        misc::web_fetch_params(),
    ]
}

/// The arguments that each of the built-in tools cannot do without.
pub open spec fn builtin_required() -> Seq<Seq<Seq<char>>> {
    seq![
        seq!["path"@],
        seq!["path"@, "content"@],
        seq!["path"@, "old_string"@, "new_string"@],
        Seq::<Seq<char>>::empty(),
        seq!["pattern"@],
        seq!["pattern"@],
        seq!["command"@],
        seq!["id"@],
        seq!["id"@],
        seq!["todos"@],
        seq!["url"@],
    ]
}

/// No two built-in tools share a name.
pub proof fn law_builtin_names_are_unique()
    ensures
        builtin_names().no_duplicates(),
{
    reveal_strlit("read_file");
    reveal_strlit("write_file");
    reveal_strlit("edit_file");
    reveal_strlit("list_files");
    reveal_strlit("glob");
    reveal_strlit("grep");
    reveal_strlit("bash");
    reveal_strlit("bash_output");
    reveal_strlit("kill_shell");
    reveal_strlit("todo_write");
    reveal_strlit("web_fetch");
    let names = builtin_names();
    assert(names[0].len() == 9 && names[1].len() == 10 && names[2].len() == 9 && names[3].len()
        == 10 && names[4].len() == 4 && names[5].len() == 4 && names[6].len() == 4
        && names[7].len() == 11 && names[8].len() == 10 && names[9].len() == 10
        && names[10].len() == 9);
    assert(names[0][0] == 'r' && names[2][0] == 'e' && names[10][0] == 'w');
    assert(names[1][0] == 'w' && names[3][0] == 'l' && names[8][0] == 'k' && names[9][0] == 't');
    assert(names[4][1] == 'l' && names[5][1] == 'r' && names[6][1] == 'a');
}

/// Whether an argument of a name is among some arguments.
pub open spec fn has_param(params: Seq<schema::ParamView>, name: Seq<char>) -> bool {
    exists|i: int| 0 <= i < params.len() && (#[trigger] params[i]).name == name
}

/// Every argument that a built-in tool cannot do without is advertised.
pub proof fn law_required_arguments_are_advertised(tool: int, i: int)
    requires
        0 <= tool < builtin_required().len(),
        0 <= i < builtin_required()[tool].len(),
    ensures
        has_param(builtin_params()[tool], builtin_required()[tool][i]),
{
    assert(builtin_params()[tool][i].name == builtin_required()[tool][i]);
}

impl ToolRegistry {
    /// No name stands twice.
    pub open spec fn wf(&self) -> bool {
        tool_names(self.tools@).no_duplicates()
    }

    pub fn new() -> (r: Self)
        ensures
            r.wf(),
            r.tools@.len() == 0,
    {
        ToolRegistry { tools: Vec::new() }
    }

    /// Every built-in tool.
    pub fn with_builtins() -> (r: Self)
        ensures
            r.wf(),
            tool_names(r.tools@) == builtin_names(),
            r.tools@.map_values(|t: Arc<ToolInfo>| t.kind) == builtin_kinds(),
            r.tools@.map_values(|t: Arc<ToolInfo>| t.description@) == builtin_descriptions(),
            forall|i: int|
                0 <= i < r.tools@.len() ==> schema::is_schema(
                    *(#[trigger] r.tools@[i]).parameters,
                    builtin_params()[i],
                    builtin_required()[i],
                ),
    {
        let mut r = ToolRegistry { tools: Vec::new() };
        r.tools.push(Arc::new(fs::ReadFile.info()));
        r.tools.push(Arc::new(fs::WriteFile.info()));
        r.tools.push(Arc::new(fs::EditFile.info()));
        r.tools.push(Arc::new(fs::ListFiles.info()));
        r.tools.push(Arc::new(search::Glob.info()));
        r.tools.push(Arc::new(search::Grep.info()));
        r.tools.push(Arc::new(shell::Bash.info()));
        r.tools.push(Arc::new(shell::BashOutput.info()));
        r.tools.push(Arc::new(shell::KillShell.info()));
        r.tools.push(Arc::new(misc::TodoWrite.info()));
        r.tools.push(Arc::new(misc::WebFetch.info()));
        assert(tool_names(r.tools@) =~= builtin_names());
        assert(r.tools@.map_values(|t: Arc<ToolInfo>| t.kind) =~= builtin_kinds());
        assert(r.tools@.map_values(|t: Arc<ToolInfo>| t.description@) =~= builtin_descriptions());
        proof {
            law_builtin_names_are_unique();
        }
        r
    }

    fn position(&self, name: &str) -> (r: Option<usize>)
        ensures
            match r {
                Some(i) => i < self.tools@.len() && tool_from(self.tools@, name@, 0) == Some(
                    i as int,
                ),
                None => tool_from(self.tools@, name@, 0) is None,
            },
    {
        let mut i: usize = 0;
        while i < self.tools.len()
            invariant
                i <= self.tools@.len(),
                tool_from(self.tools@, name@, 0) == tool_from(self.tools@, name@, i as int),
            decreases self.tools.len() - i,
        {
            if text::same(&self.tools[i].name, name) {
                return Some(i);
            }
            i += 1;
        }
        None
    }

    /// Add a tool. A later registration with the same name replaces the earlier
    /// one, which is how a project can shadow a built-in.
    pub fn register(&mut self, tool: Arc<ToolInfo>)
        requires
            old(self).wf(),
        ensures
            final(self).wf(),
            final(self).tools@ == registered(old(self).tools@, tool),
    {
        let ghost before = self.tools@;
        proof {
            lemma_tool_from(before, tool.name@, 0);
        }
        match self.position(&tool.name) {
            Some(i) => {
                self.tools.set(i, tool);
                assert(tool_names(self.tools@) =~= tool_names(before));
            },
            None => {
                self.tools.push(tool);
                proof {
                    let names = tool_names(self.tools@);
                    let old_names = tool_names(before);
                    assert(names =~= old_names.push(tool.name@));
                    assert forall|i: int, j: int|
                        0 <= i < names.len() && 0 <= j < names.len() && i != j implies names[i]
                        != names[j] by {
                        if i < before.len() && j < before.len() {
                            assert(old_names[i] != old_names[j]);
                        } else if i < before.len() {
                            assert(before[i].name@ != tool.name@);
                        } else {
                            assert(before[j].name@ != tool.name@);
                        }
                    }
                }
            },
        }
    }

    pub fn get(&self, name: &str) -> (r: Option<Arc<ToolInfo>>)
        ensures
            r == (match tool_from(self.tools@, name@, 0) {
                Some(i) => Some(self.tools@[i]),
                None => None,
            }),
    {
        match self.position(name) {
            Some(i) => Some(self.tools[i].clone()),
            None => None,
        }
    }

    pub fn names(&self) -> (r: Vec<String>)
        ensures
            text::views(r@) == tool_names(self.tools@),
    {
        let mut out: Vec<String> = Vec::new();
        let mut i: usize = 0;
        while i < self.tools.len()
            invariant
                i <= self.tools@.len(),
                text::views(out@) == tool_names(self.tools@).take(i as int),
            decreases self.tools.len() - i,
        {
            let ghost before = text::views(out@);
            out.push(self.tools[i].name.clone());
            assert(text::views(out@) =~= before.push(self.tools@[i as int].name@));
            i += 1;
            assert(text::views(out@) =~= tool_names(self.tools@).take(i as int));
        }
        assert(tool_names(self.tools@).take(self.tools@.len() as int) =~= tool_names(self.tools@));
        out
    }

    /// The tools, in the order in which they were registered.
    pub fn iter(&self) -> (r: &Vec<Arc<ToolInfo>>)
        ensures
            r@ == self.tools@,
    {
        &self.tools
    }

    pub fn len(&self) -> (r: usize)
        ensures
            r == self.tools@.len(),
    {
        self.tools.len()
    }

    pub fn is_empty(&self) -> (r: bool)
        ensures
            r == (self.tools@.len() == 0),
    {
        self.tools.len() == 0
    }

    /// Specs to advertise to the model.
    pub fn specs(&self) -> (r: Vec<ToolSpec>)
        ensures
            r@.len() == self.tools@.len(),
            forall|i: int| 0 <= i < r@.len() ==> advertises(#[trigger] r@[i], *self.tools@[i]),
    {
        let mut out: Vec<ToolSpec> = Vec::new();
        let mut i: usize = 0;
        while i < self.tools.len()
            invariant
                i <= self.tools@.len(),
                out@.len() == i,
                forall|k: int| 0 <= k < i ==> advertises(#[trigger] out@[k], *self.tools@[k]),
            decreases self.tools.len() - i,
        {
            let t = &self.tools[i];
            out.push(
                ToolSpec {
                    kind: "function".to_owned(),
                    function: FunctionSpec {
                        name: t.name.clone(),
                        description: t.description.clone(),
                        parameters: t.parameters.clone(),
                    },
                },
            );
            i += 1;
        }
        out
    }

    /// Restrict to a named subset, for subagents with a narrower remit.
    ///
    /// An unknown name is ignored rather than erroring.
    pub fn subset(&self, allowed: &Vec<String>) -> (r: Self)
        requires
            self.wf(),
        ensures
            r.wf(),
            r.tools@ == self.tools@.filter(
                |t: Arc<ToolInfo>| text::views(allowed@).contains(t.name@),
            ),
    {
        let ghost keep = |t: Arc<ToolInfo>| text::views(allowed@).contains(t.name@);
        let mut out: Vec<Arc<ToolInfo>> = Vec::new();
        let mut i: usize = 0;
        proof {
            reveal(Seq::filter);
            assert(self.tools@.take(0).filter(keep) =~= Seq::<Arc<ToolInfo>>::empty());
        }
        while i < self.tools.len()
            invariant
                i <= self.tools@.len(),
                keep == (|t: Arc<ToolInfo>| text::views(allowed@).contains(t.name@)),
                out@ == self.tools@.take(i as int).filter(keep),
            decreases self.tools.len() - i,
        {
            proof {
                reveal(Seq::filter);
                assert(self.tools@.take(i + 1).drop_last() =~= self.tools@.take(i as int));
            }
            if listed(allowed, &self.tools[i].name) {
                out.push(self.tools[i].clone());
            }
            i += 1;
        }
        proof {
            assert(self.tools@.take(self.tools@.len() as int) =~= self.tools@);
            lemma_filter_keeps_distinct(self.tools@, keep);
        }
        ToolRegistry { tools: out }
    }

    /// Drop every tool that can mutate the machine. Used by plan mode.
    pub fn read_only(&self) -> (r: Self)
        requires
            self.wf(),
        ensures
            r.wf(),
            r.tools@ == self.tools@.filter(|t: Arc<ToolInfo>| !kind_mutates(t.kind)),
    {
        let ghost keep = |t: Arc<ToolInfo>| !kind_mutates(t.kind);
        let mut out: Vec<Arc<ToolInfo>> = Vec::new();
        let mut i: usize = 0;
        proof {
            reveal(Seq::filter);
            assert(self.tools@.take(0).filter(keep) =~= Seq::<Arc<ToolInfo>>::empty());
        }
        while i < self.tools.len()
            invariant
                i <= self.tools@.len(),
                keep == (|t: Arc<ToolInfo>| !kind_mutates(t.kind)),
                out@ == self.tools@.take(i as int).filter(keep),
            decreases self.tools.len() - i,
        {
            proof {
                reveal(Seq::filter);
                assert(self.tools@.take(i + 1).drop_last() =~= self.tools@.take(i as int));
            }
            if !self.tools[i].kind.mutates() {
                out.push(self.tools[i].clone());
            }
            i += 1;
        }
        proof {
            assert(self.tools@.take(self.tools@.len() as int) =~= self.tools@);
            lemma_filter_keeps_distinct(self.tools@, keep);
        }
        ToolRegistry { tools: out }
    }

    /// Drop one tool by name. Used to keep `task` out of a subagent's toolset,
    /// so subagents cannot spawn subagents.
    pub fn without(&self, name: &str) -> (r: Self)
        requires
            self.wf(),
        ensures
            r.wf(),
            r.tools@ == self.tools@.filter(|t: Arc<ToolInfo>| t.name@ != name@),
    {
        let ghost keep = |t: Arc<ToolInfo>| t.name@ != name@;
        let mut out: Vec<Arc<ToolInfo>> = Vec::new();
        let mut i: usize = 0;
        proof {
            reveal(Seq::filter);
            assert(self.tools@.take(0).filter(keep) =~= Seq::<Arc<ToolInfo>>::empty());
        }
        while i < self.tools.len()
            invariant
                i <= self.tools@.len(),
                keep == (|t: Arc<ToolInfo>| t.name@ != name@),
                out@ == self.tools@.take(i as int).filter(keep),
            decreases self.tools.len() - i,
        {
            proof {
                reveal(Seq::filter);
                assert(self.tools@.take(i + 1).drop_last() =~= self.tools@.take(i as int));
            }
            if !text::same(&self.tools[i].name, name) {
                out.push(self.tools[i].clone());
            }
            i += 1;
        }
        proof {
            assert(self.tools@.take(self.tools@.len() as int) =~= self.tools@);
            lemma_filter_keeps_distinct(self.tools@, keep);
        }
        ToolRegistry { tools: out }
    }
}

impl Clone for ToolRegistry {
    fn clone(&self) -> (r: Self)
        ensures
            r.tools@ == self.tools@,
    {
        let mut out: Vec<Arc<ToolInfo>> = Vec::new();
        let mut i: usize = 0;
        while i < self.tools.len()
            invariant
                i <= self.tools@.len(),
                out@ == self.tools@.take(i as int),
            decreases self.tools.len() - i,
        {
            out.push(self.tools[i].clone());
            i += 1;
            assert(out@ =~= self.tools@.take(i as int));
        }
        assert(self.tools@.take(self.tools@.len() as int) =~= self.tools@);
        ToolRegistry { tools: out }
    }
}

/// Whether a name is in a list.
pub(crate) fn listed(list: &Vec<String>, name: &str) -> (r: bool)
    ensures
        r == text::views(list@).contains(name@),
{
    let ghost all = text::views(list@);
    let mut i: usize = 0;
    while i < list.len()
        invariant
            i <= list.len(),
            all == text::views(list@),
            forall|k: int| 0 <= k < i ==> all[k] != name@,
        decreases list.len() - i,
    {
        assert(all[i as int] == list@[i as int]@);
        if text::same(&list[i], name) {
            return true;
        }
        i += 1;
    }
    false
}

proof fn lemma_filter_members(
    tools: Seq<Arc<ToolInfo>>,
    keep: spec_fn(Arc<ToolInfo>) -> bool,
)
    ensures
        forall|i: int|
            0 <= i < tools.filter(keep).len() ==> keep(#[trigger] tools.filter(keep)[i])
                && tools.contains(tools.filter(keep)[i]),
    decreases tools.len(),
{
    reveal(Seq::filter);
    if tools.len() > 0 {
        let front = tools.drop_last();
        lemma_filter_members(front, keep);
        let f = tools.filter(keep);
        assert forall|i: int| 0 <= i < f.len() implies keep(#[trigger] f[i]) && tools.contains(
            f[i],
        ) by {
            let g = front.filter(keep);
            if i < g.len() {
                assert(f[i] == g[i]);
                let k = choose|k: int| 0 <= k < front.len() && front[k] == g[i];
                assert(tools[k] == g[i]);
            } else {
                assert(f[i] == tools[tools.len() - 1]);
            }
        }
    }
}

proof fn lemma_filter_keeps_distinct(
    tools: Seq<Arc<ToolInfo>>,
    keep: spec_fn(Arc<ToolInfo>) -> bool,
)
    requires
        tool_names(tools).no_duplicates(),
    ensures
        tool_names(tools.filter(keep)).no_duplicates(),
    decreases tools.len(),
{
    reveal(Seq::filter);
    if tools.len() > 0 {
        let front = tools.drop_last();
        let names = tool_names(tools);
        assert(tool_names(front).no_duplicates()) by {
            let n = tool_names(front);
            assert forall|i: int, j: int|
                0 <= i < n.len() && 0 <= j < n.len() && i != j implies n[i] != n[j] by {
                assert(n[i] == names[i] && n[j] == names[j]);
            }
        }
        lemma_filter_keeps_distinct(front, keep);
        lemma_filter_members(front, keep);
        let g = front.filter(keep);
        let f = tools.filter(keep);
        let fnames = tool_names(f);
        assert forall|i: int, j: int|
            0 <= i < fnames.len() && 0 <= j < fnames.len() && i != j implies fnames[i]
            != fnames[j] by {
            if i < g.len() && j < g.len() {
                assert(tool_names(g)[i] == fnames[i] && tool_names(g)[j] == fnames[j]);
            } else {
                let a = if i < g.len() { i } else { j };
                assert(front.contains(g[a]));
                let k = choose|k: int| 0 <= k < front.len() && front[k] == g[a];
                assert(names[k] == g[a].name@);
                assert(names[tools.len() - 1] == tools[tools.len() - 1].name@);
                assert(fnames[a] == names[k]);
                assert(names[k] != names[tools.len() - 1]);
            }
        }
    }
}

/// Plan mode never sees a tool that could mutate, and sees no tool that was not
/// there before.
pub proof fn law_read_only_never_mutates(tools: Seq<Arc<ToolInfo>>, i: int)
    requires
        0 <= i < tools.filter(|t: Arc<ToolInfo>| !kind_mutates(t.kind)).len(),
    ensures
        !kind_mutates(tools.filter(|t: Arc<ToolInfo>| !kind_mutates(t.kind))[i].kind),
        tools.contains(tools.filter(|t: Arc<ToolInfo>| !kind_mutates(t.kind))[i]),
{
    lemma_filter_members(tools, |t: Arc<ToolInfo>| !kind_mutates(t.kind));
}

/// A restricted set holds only tools of the whole set whose names were listed.
pub proof fn law_subset_narrows(tools: Seq<Arc<ToolInfo>>, allowed: Seq<Seq<char>>, i: int)
    requires
        0 <= i < tools.filter(|t: Arc<ToolInfo>| allowed.contains(t.name@)).len(),
    ensures
        tools.contains(tools.filter(|t: Arc<ToolInfo>| allowed.contains(t.name@))[i]),
        allowed.contains(tools.filter(|t: Arc<ToolInfo>| allowed.contains(t.name@))[i].name@),
{
    lemma_filter_members(tools, |t: Arc<ToolInfo>| allowed.contains(t.name@));
}

/// What was registered is what a lookup of its name gives, and lookups of other
/// names are as before.
pub proof fn law_registered_is_found(
    tools: Seq<Arc<ToolInfo>>,
    tool: Arc<ToolInfo>,
    other: Seq<char>,
)
    requires
        tool_names(tools).no_duplicates(),
        other != tool.name@,
    ensures
        ({
            let r = registered(tools, tool);
            &&& tool_from(r, tool.name@, 0) matches Some(i) && r[i] == tool
            &&& (tool_from(r, other, 0) is Some) == (tool_from(tools, other, 0) is Some)
            &&& tool_from(r, other, 0) matches Some(i) ==> r[i] == tools[tool_from(
                tools,
                other,
                0,
            )->0]
        }),
{
    let r = registered(tools, tool);
    let names = tool_names(tools);
    lemma_tool_from(tools, tool.name@, 0);
    lemma_tool_from(r, tool.name@, 0);
    lemma_tool_from(tools, other, 0);
    lemma_tool_from(r, other, 0);
    let at = match tool_from(tools, tool.name@, 0) {
        Some(i) => i,
        None => tools.len() as int,
    };
    assert(r[at] == tool);
    assert(tool_from(r, tool.name@, 0) is Some);
    let k = tool_from(r, tool.name@, 0)->0;
    if k != at {
        assert(r[k] == tools[k]);
        assert(names[k] == tool.name@);
        if at < tools.len() {
            assert(names[at] == tool.name@);
        }
    }
    match tool_from(tools, other, 0) {
        Some(i) => {
            assert(i != at);
            assert(r[i] == tools[i]);
            let j = tool_from(r, other, 0)->0;
            assert(j != at);
            assert(r[j] == tools[j]);
            assert(names[i] == other && names[j] == other);
        },
        None => {
            match tool_from(r, other, 0) {
                Some(j) => {
                    assert(j != at);
                    assert(r[j] == tools[j]);
                },
                None => {},
            }
        },
    }
}

// ---------------------------------------------------------------------------
// Schemas
// ---------------------------------------------------------------------------

/// Build a JSON-schema object for a tool's parameters.
pub fn object_schema(props: Vec<(String, Json)>, required: &Vec<String>) -> (r: Json)
    ensures
        r matches Json::Object(m) && m@.len() == 3,
        crate::json::field(r, "properties"@) == Some(Json::Object(props)),
        crate::json::field(r, "required"@) matches Some(Json::Array(list)) && list@.len()
            == required@.len() && forall|i: int|
            0 <= i < list@.len() ==> (#[trigger] list@[i] matches Json::Str(s) && s@
                == required@[i]@),
        crate::json::str_field(r, "type"@) == Some("object"@),
{
    let mut list: Vec<Json> = Vec::new();
    let mut i: usize = 0;
    while i < required.len()
        invariant
            i <= required@.len(),
            list@.len() == i,
            forall|k: int|
                0 <= k < i ==> (#[trigger] list@[k] matches Json::Str(s) && s@ == required@[k]@),
        decreases required.len() - i,
    {
        list.push(Json::Str(required[i].clone()));
        i += 1;
    }
    let mut members: Vec<(String, Json)> = Vec::new();
    members.push(("properties".to_owned(), Json::Object(props)));
    members.push(("required".to_owned(), Json::Array(list)));
    members.push(("type".to_owned(), Json::Str("object".to_owned())));
    proof {
        reveal_strlit("properties");
        reveal_strlit("required");
        reveal_strlit("type");
        assert("properties"@.len() == 10 && "required"@.len() == 8 && "type"@.len() == 4);
        reveal_with_fuel(crate::json::member, 4);
        assert(members@.skip(1)[0] == members@[1]);
        assert(members@.skip(1).skip(1)[0] == members@[2]);
    }
    Json::Object(members)
}

/// Shorthand for one property in a schema.
pub fn prop(ty: &str, description: &str) -> (r: Json)
    ensures
        r matches Json::Object(m) && m@.len() == 2,
        crate::json::str_field(r, "description"@) == Some(description@),
        crate::json::str_field(r, "type"@) == Some(ty@),
        crate::json::field(r, "enum"@) is None,
{
    let mut members: Vec<(String, Json)> = Vec::new();
    members.push(("description".to_owned(), Json::Str(description.to_owned())));
    members.push(("type".to_owned(), Json::Str(ty.to_owned())));
    proof {
        reveal_strlit("description");
        reveal_strlit("type");
        reveal_strlit("enum");
        assert("description"@.len() == 11 && "type"@.len() == 4 && "enum"@.len() == 4);
        assert("enum"@[0] == 'e' && "type"@[0] == 't');
        reveal_with_fuel(crate::json::member, 3);
        assert(members@.skip(1)[0] == members@[1]);
    }
    Json::Object(members)
}

} // verus!
