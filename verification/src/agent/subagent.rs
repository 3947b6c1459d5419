//! Subagents: jobs that are handed to a nested agent.
//!
//! A subagent is a markdown file: settings between fences, and the subagent's
//! system prompt below them.
use vstd::prelude::*;
use vstd::string::StringExecFns;
use crate::api::types::clone_text;
use crate::config;
use crate::frontmatter::{
    fence_of, read_fence, read_setting, setting_of, trim_both, without_both, Fence, FenceView,
    SourceFile,
};
use crate::order::{
    lemma_overlaid_map, lemma_sorted_map, overlaid, overlay_named, sort_named, sorted_by, Named,
};
use crate::text;
use crate::util;

verus! {

/// A subagent as defined on disk.
#[derive(Debug, PartialEq, Eq)]
pub struct SubagentDefinition {
    pub name: String,
    pub description: String,
    /// The markdown body: the subagent's system prompt.
    pub prompt: String,
    /// Tool names it may use. `None` means "everything the parent has".
    pub tools: Option<Vec<String>>,
    /// Model override.
    pub model: Option<String>,
}

/// A definition, as text.
pub struct DefinitionView {
    pub name: Seq<char>,
    pub description: Seq<char>,
    pub prompt: Seq<char>,
    pub tools: Option<Seq<Seq<char>>>,
    pub model: Option<Seq<char>>,
}

pub open spec fn opt_list(list: Option<Vec<String>>) -> Option<Seq<Seq<char>>> {
    match list {
        Some(l) => Some(text::views(l@)),
        None => None,
    }
}

impl View for SubagentDefinition {
    type V = DefinitionView;

    open spec fn view(&self) -> DefinitionView {
        DefinitionView {
            name: self.name@,
            description: self.description@,
            prompt: self.prompt@,
            tools: opt_list(self.tools),
            model: text::opt_view(self.model),
        }
    }
}

fn copy_texts(list: &Vec<String>) -> (r: Vec<String>)
    ensures
        text::views(r@) == text::views(list@),
{
    let ghost all = text::views(list@);
    let mut out: Vec<String> = Vec::new();
    let mut i: usize = 0;
    assert(text::views(out@) =~= all.take(0));
    while i < list.len()
        invariant
            i <= list.len(),
            all == text::views(list@),
            text::views(out@) == all.take(i as int),
        decreases list.len() - i,
    {
        let ghost before = text::views(out@);
        out.push(list[i].clone());
        assert(text::views(out@) =~= before.push(all[i as int]));
        i += 1;
        assert(text::views(out@) =~= all.take(i as int));
    }
    assert(all.take(all.len() as int) =~= all);
    out
}

impl Clone for SubagentDefinition {
    fn clone(&self) -> (r: Self)
        ensures
            r@ == self@,
    {
        SubagentDefinition {
            name: self.name.clone(),
            description: self.description.clone(),
            prompt: self.prompt.clone(),
            tools: match &self.tools {
                Some(list) => Some(copy_texts(list)),
                None => None,
            },
            model: clone_text(&self.model),
        }
    }
}

/// A copy of a list of definitions.
pub(crate) fn copy_definitions(list: &Vec<SubagentDefinition>) -> (r: Vec<SubagentDefinition>)
    ensures
        definition_views(r@) == definition_views(list@),
{
    let ghost all = definition_views(list@);
    let mut out: Vec<SubagentDefinition> = Vec::new();
    let mut i: usize = 0;
    assert(definition_views(out@) =~= all.take(0));
    while i < list.len()
        invariant
            i <= list.len(),
            all == definition_views(list@),
            definition_views(out@) == all.take(i as int),
        decreases list.len() - i,
    {
        let d = list[i].clone();
        let ghost before = definition_views(out@);
        let ghost dv = d@;
        out.push(d);
        assert(definition_views(out@) =~= before.push(dv));
        i += 1;
        assert(definition_views(out@) =~= all.take(i as int));
    }
    assert(all.take(all.len() as int) =~= all);
    out
}

impl Named for SubagentDefinition {
    open spec fn key(&self) -> Seq<char> {
        self.name@
    }

    fn key_text(&self) -> (r: &str) {
        self.name.as_str()
    }
}

/// The views of definitions.
pub open spec fn definition_views(list: Seq<SubagentDefinition>) -> Seq<DefinitionView> {
    list.map_values(|d: SubagentDefinition| d@)
}

/// What a definition goes by.
pub open spec fn by_name() -> spec_fn(DefinitionView) -> Seq<char> {
    |d: DefinitionView| d.name
}

/// Where definitions lie, the user's first so that the project's win.
pub fn agent_dirs(home: Option<&str>, workspace: &str) -> (r: Vec<String>)
    ensures
        text::views(r@) == config::layered(config::opt_str(home), workspace@, "agents"@),
{
    config::layered_dirs(home, workspace, "agents")
}

/// A tool's name in a list, without white space and quotes around it.
pub open spec fn tool_word(piece: Seq<char>) -> Seq<char> {
    without_both(text::trimmed(piece), '"')
}

/// The names among the pieces of a list.
pub open spec fn tool_words(pieces: Seq<Seq<char>>) -> Seq<Seq<char>>
    decreases pieces.len(),
{
    if pieces.len() == 0 {
        Seq::empty()
    } else {
        let before = tool_words(pieces.drop_last());
        let word = tool_word(pieces.last());
        if word.len() == 0 {
            before
        } else {
            before.push(word)
        }
    }
}

/// The tools that a setting names: `a, b, c` or `[a, b, c]`. A list without
/// names is no restriction.
pub open spec fn tool_list(value: Seq<char>) -> Option<Seq<Seq<char>>> {
    let bare = text::without_end(text::without_start(value, '['), ']');
    let words = tool_words(text::pieces(bare, ','));
    if words.len() == 0 {
        None
    } else {
        Some(words)
    }
}

/// The tools that a setting names.
fn read_tool_list(value: &str) -> (r: Option<Vec<String>>)
    ensures
        opt_list(r) == tool_list(value@),
{
    let bare = text::trim_end_char(&text::trim_start_char(value, '['), ']');
    let pieces = text::split(&bare, ',');
    let ghost all = text::views(pieces@);
    let mut out: Vec<String> = Vec::new();
    let mut i: usize = 0;
    assert(text::views(out@) =~= Seq::<Seq<char>>::empty());
    while i < pieces.len()
        invariant
            i <= pieces.len(),
            all == text::views(pieces@),
            text::views(out@) == tool_words(all.take(i as int)),
        decreases pieces.len() - i,
    {
        assert(all.take(i + 1).drop_last() =~= all.take(i as int));
        assert(all[i as int] == pieces@[i as int]@);
        let word = trim_both(&text::trim(&pieces[i]), '"');
        if !word.as_str().is_empty() {
            let ghost before = text::views(out@);
            let ghost wv = word@;
            out.push(word);
            assert(text::views(out@) =~= before.push(wv));
        }
        i += 1;
    }
    assert(all.take(all.len() as int) =~= all);
    assert(text::views(out@).len() == out@.len());
    if out.len() == 0 {
        None
    } else {
        Some(out)
    }
}

/// What the settings of a definition say: the name, the description, the tools
/// and the model.
pub struct Settings {
    pub name: Seq<char>,
    pub description: Seq<char>,
    pub tools: Option<Seq<Seq<char>>>,
    pub model: Option<Seq<char>>,
}

/// What the lines of a block set.
pub open spec fn settings(stem: Seq<char>, lines: Seq<Seq<char>>) -> Settings
    decreases lines.len(),
{
    if lines.len() == 0 {
        Settings { name: stem, description: Seq::empty(), tools: None, model: None }
    } else {
        let s = settings(stem, lines.drop_last());
        match setting_of(lines.last()) {
            None => s,
            Some((key, value)) => if key == "name"@ {
                Settings { name: value, ..s }
            } else if key == "description"@ {
                Settings { description: value, ..s }
            } else if key == "model"@ {
                Settings { model: Some(value), ..s }
            } else if key == "tools"@ {
                Settings { tools: tool_list(value), ..s }
            } else {
                s
            },
        }
    }
}

/// The settings and the prompt in a file. A fence that nothing closes makes it
/// malformed.
pub open spec fn definition_parts(text: Seq<char>) -> Option<(Seq<char>, Seq<char>)> {
    match fence_of(text) {
        FenceView::Absent => Some((Seq::empty(), text)),
        FenceView::Unclosed => None,
        FenceView::Closed(block, body) => Some((block, body)),
    }
}

/// The subagent that a file defines. The file's name stands in for a missing
/// one, and one without a prompt has nothing to contribute.
pub open spec fn definition(text: Seq<char>, path: Seq<char>) -> Option<DefinitionView> {
    match (definition_parts(text), util::stem_of(path)) {
        (Some((block, body)), Some(stem)) => {
            let s = settings(stem, text::lines_of(block));
            if text::trimmed(body).len() == 0 {
                None
            } else {
                Some(
                    DefinitionView {
                        name: s.name,
                        description: if s.description.len() == 0 {
                            "custom agent from "@ + path
                        } else {
                            s.description
                        },
                        prompt: text::trimmed(body),
                        tools: s.tools,
                        model: s.model,
                    },
                )
            }
        },
        _ => None,
    }
}

pub open spec fn opt_definition(d: Option<SubagentDefinition>) -> Option<DefinitionView> {
    match d {
        Some(x) => Some(x@),
        None => None,
    }
}

/// Parse a definition file. The filename is the fallback name.
pub fn parse(text: &str, path: &str) -> (r: Option<SubagentDefinition>)
    ensures
        opt_definition(r) == definition(text@, path@),
{
    let (block, body) = match read_fence(text) {
        Fence::Absent => (String::new(), text.to_owned()),
        Fence::Unclosed => {
            return None;
        },
        Fence::Closed(a, b) => (a, b),
    };
    assert(block@ =~= (definition_parts(text@)->0).0);
    let mut name = match util::file_stem(path) {
        Some(s) => s,
        None => {
            return None;
        },
    };
    let ghost stem = name@;
    let lines = text::lines(&block);
    let ghost all = text::views(lines@);
    let mut description = String::new();
    let mut tools: Option<Vec<String>> = None;
    let mut model: Option<String> = None;
    let mut i: usize = 0;
    assert(description@ =~= Seq::<char>::empty());
    assert(all.take(0) =~= Seq::<Seq<char>>::empty());
    while i < lines.len()
        invariant
            i <= lines.len(),
            all == text::views(lines@),
            settings(stem, all.take(i as int)) == (Settings {
                name: name@,
                description: description@,
                tools: opt_list(tools),
                model: text::opt_view(model),
            }),
        decreases lines.len() - i,
    {
        assert(all.take(i + 1).drop_last() =~= all.take(i as int));
        assert(all[i as int] == lines@[i as int]@);
        match read_setting(&lines[i]) {
            None => {},
            Some((key, value)) => {
                if text::same(&key, "name") {
                    name = value;
                } else if text::same(&key, "description") {
                    description = value;
                } else if text::same(&key, "model") {
                    model = Some(value);
                } else if text::same(&key, "tools") {
                    tools = read_tool_list(&value);
                }
            },
        }
        i += 1;
    }
    assert(all.take(all.len() as int) =~= all);
    let prompt = text::trim(&body);
    if prompt.as_str().is_empty() {
        return None;
    }
    if description.as_str().is_empty() {
        description = "custom agent from ".to_owned();
        description.append(path);
    }
    Some(SubagentDefinition { name, description, prompt, tools, model })
}

/// The subagents that the files of a directory define. Malformed files are
/// skipped, so that one of them does not cost the others.
pub open spec fn definitions_in(files: Seq<SourceFile>) -> Seq<DefinitionView>
    decreases files.len(),
{
    if files.len() == 0 {
        Seq::empty()
    } else {
        let before = definitions_in(files.drop_last());
        let f = files.last();
        if util::extension_of(f.path@) == Some("md"@) {
            match definition(f.text@, f.path@) {
                Some(d) => before.push(d),
                None => before,
            }
        } else {
            before
        }
    }
}

/// The subagents of several directories, those of a later one in place of
/// earlier ones.
pub open spec fn layered_definitions(dirs: Seq<Vec<SourceFile>>) -> Seq<DefinitionView>
    decreases dirs.len(),
{
    if dirs.len() == 0 {
        Seq::empty()
    } else {
        overlaid(
            layered_definitions(dirs.drop_last()),
            definitions_in(dirs.last()@),
            by_name(),
        )
    }
}

fn read_definitions(files: &Vec<SourceFile>) -> (r: Vec<SubagentDefinition>)
    ensures
        definition_views(r@) == definitions_in(files@),
{
    let mut out: Vec<SubagentDefinition> = Vec::new();
    let mut i: usize = 0;
    assert(definition_views(out@) =~= Seq::<DefinitionView>::empty());
    while i < files.len()
        invariant
            i <= files.len(),
            definition_views(out@) == definitions_in(files@.take(i as int)),
        decreases files.len() - i,
    {
        assert(files@.take(i + 1).drop_last() =~= files@.take(i as int));
        if util::has_extension(&files[i].path, "md") {
            match parse(&files[i].text, &files[i].path) {
                Some(d) => {
                    let ghost before = definition_views(out@);
                    let ghost dv = d@;
                    out.push(d);
                    assert(definition_views(out@) =~= before.push(dv));
                },
                None => {},
            }
        }
        i += 1;
    }
    assert(files@.take(files@.len() as int) =~= files@);
    out
}

/// Read every subagent definition, in the order of names.
pub fn discover(dirs: &Vec<Vec<SourceFile>>) -> (r: Vec<SubagentDefinition>)
    ensures
        definition_views(r@) == sorted_by(layered_definitions(dirs@), by_name()),
{
    let mut found: Vec<SubagentDefinition> = Vec::new();
    let mut i: usize = 0;
    assert(definition_views(found@) =~= Seq::<DefinitionView>::empty());
    while i < dirs.len()
        invariant
            i <= dirs.len(),
            definition_views(found@) == layered_definitions(dirs@.take(i as int)),
        decreases dirs.len() - i,
    {
        assert(dirs@.take(i + 1).drop_last() =~= dirs@.take(i as int));
        let batch = read_definitions(&dirs[i]);
        let ghost before = found@;
        let ghost added = batch@;
        overlay_named(&mut found, batch);
        proof {
            lemma_overlaid_map(
                before,
                added,
                |d: SubagentDefinition| d@,
                |d: SubagentDefinition| d.key(),
                by_name(),
            );
        }
        i += 1;
    }
    assert(dirs@.take(dirs@.len() as int) =~= dirs@);
    let ghost unsorted = found@;
    let sorted = sort_named(found);
    proof {
        lemma_sorted_map(
            unsorted,
            |d: SubagentDefinition| d@,
            |d: SubagentDefinition| d.key(),
            by_name(),
        );
    }
    sorted
}

} // verus!
