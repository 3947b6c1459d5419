//! A small chat: what has been said, and the two file tools that its model may
//! call.
use vstd::prelude::*;
use vstd::string::StringExecFns;
use crate::api::types::ToolSpec;
use crate::json::Json;
use crate::order::{lemma_sorted_map, sort_named, sorted_by, Named};
use crate::text;
use crate::tools::schema::{is_schema, param, param_views, schema, str_views, Param};

verus! {

/// Who has said something.
#[derive(Debug, Clone, Copy, PartialEq, Eq, Structural)]
pub enum Author {
    User,
    System,
}

/// Something that has been said.
#[derive(Debug)]
pub struct ChatMessage {
    pub author: Author,
    pub content: String,
}

impl View for ChatMessage {
    type V = (Author, Seq<char>);

    open spec fn view(&self) -> (Author, Seq<char>) {
        (self.author, self.content@)
    }
}

/// What has been said, as text.
pub open spec fn said(messages: Seq<ChatMessage>) -> Seq<(Author, Seq<char>)> {
    messages.map_values(|m: ChatMessage| m@)
}

/// The chat, and what is being typed.
#[derive(Debug)]
pub struct App {
    pub input: String,
    pub messages: Vec<ChatMessage>,
    pub is_loading: bool,
    pub scroll: u16,
}

impl App {
    pub fn new() -> (r: App)
        ensures
            r.input@.len() == 0,
            r.messages@.len() == 0,
            !r.is_loading,
            r.scroll == 0,
    {
        App { input: String::new(), messages: Vec::new(), is_loading: false, scroll: 0 }
    }

    /// Says what has been typed, unless that is nothing.
    pub fn submit_msg(&mut self)
        ensures
            said(final(self).messages@) == (if old(self).input@.len() > 0 {
                said(old(self).messages@).push((Author::User, old(self).input@))
            } else {
                said(old(self).messages@)
            }),
            final(self).input@.len() == 0,
            final(self).is_loading == old(self).is_loading,
            final(self).scroll == old(self).scroll,
    {
        if text::chars_of(&self.input).len() > 0 {
            let ghost before = said(self.messages@);
            let mut input = String::new();
            std::mem::swap(&mut input, &mut self.input);
            let ghost typed = input@;
            self.messages.push(ChatMessage { author: Author::User, content: input });
            assert(said(self.messages@) =~= before.push((Author::User, typed)));
        }
    }

    pub fn scroll_up(&mut self)
        ensures
            final(self).scroll == (if old(self).scroll > 0 {
                old(self).scroll - 1
            } else {
                0
            }),
            final(self).input == old(self).input,
            final(self).messages == old(self).messages,
            final(self).is_loading == old(self).is_loading,
    {
        if self.scroll > 0 {
            self.scroll -= 1;
        }
    }

    pub fn scroll_down(&mut self)
        requires
            old(self).scroll < u16::MAX,
        ensures
            final(self).scroll == old(self).scroll + 1,
            final(self).input == old(self).input,
            final(self).messages == old(self).messages,
            final(self).is_loading == old(self).is_loading,
    {
        self.scroll += 1;
    }
}

// ---------------------------------------------------------------------------
// The tools
// ---------------------------------------------------------------------------

/// The argument of both tools.
#[derive(Debug)]
pub struct FileArgs {
    pub path: String,
}

/// An entry of a directory. A name that is not valid text is absent.
#[derive(Debug)]
pub struct DirEntry {
    pub name: Option<String>,
    pub is_dir: bool,
}

/// The name of an entry in a listing.
#[derive(Debug)]
pub struct Listed {
    pub name: String,
}

impl Named for Listed {
    open spec fn key(&self) -> Seq<char> {
        self.name@
    }

    fn key_text(&self) -> (r: &str) {
        self.name.as_str()
    }
}

/// The name of an entry in a listing: a directory's ends with a slash.
pub open spec fn listed_name(e: DirEntry) -> Seq<char> {
    let name = match e.name {
        Some(n) => n@,
        None => "Unknown"@,
    };
    if e.is_dir {
        name + "/"@
    } else {
        name
    }
}

/// The names of entries, in order.
pub open spec fn listing(entries: Seq<DirEntry>) -> Seq<Seq<char>> {
    sorted_by(entries.map_values(|e: DirEntry| listed_name(e)), |n: Seq<char>| n)
}

/// The listing of a directory, given its entries.
pub fn list_files(entries: &Vec<DirEntry>) -> (r: String)
    ensures
        r@ == text::joined(listing(entries@), "      "@),
{
    let ghost f = |l: Listed| l.name@;
    let ghost all = entries@.map_values(|e: DirEntry| listed_name(e));
    let mut names: Vec<Listed> = Vec::new();
    let mut i: usize = 0;
    assert(names@.map_values(f) =~= all.take(0));
    while i < entries.len()
        invariant
            i <= entries.len(),
            f == (|l: Listed| l.name@),
            all == entries@.map_values(|e: DirEntry| listed_name(e)),
            names@.map_values(f) == all.take(i as int),
        decreases entries.len() - i,
    {
        let mut name = match &entries[i].name {
            Some(n) => n.clone(),
            None => "Unknown".to_owned(),
        };
        if entries[i].is_dir {
            name.append("/");
        }
        assert(all[i as int] == name@);
        let ghost before = names@.map_values(f);
        let ghost nv = name@;
        names.push(Listed { name });
        assert(names@.map_values(f) =~= before.push(nv));
        i += 1;
        assert(names@.map_values(f) =~= all.take(i as int));
    }
    assert(all.take(all.len() as int) =~= all);
    proof {
        lemma_sorted_map(names@, f, |l: Listed| l.key(), |n: Seq<char>| n);
    }
    let sorted = sort_named(names);
    let ghost want = listing(entries@);
    assert(sorted@.map_values(f) =~= want);
    let mut out: Vec<String> = Vec::new();
    let mut k: usize = 0;
    assert(text::views(out@) =~= want.take(0));
    while k < sorted.len()
        invariant
            k <= sorted.len(),
            f == (|l: Listed| l.name@),
            want == sorted@.map_values(f),
            text::views(out@) == want.take(k as int),
        decreases sorted.len() - k,
    {
        let name = sorted[k].name.clone();
        let ghost before = text::views(out@);
        let ghost nv = name@;
        out.push(name);
        assert(text::views(out@) =~= before.push(nv));
        assert(want[k as int] == nv);
        k += 1;
        assert(text::views(out@) =~= want.take(k as int));
    }
    assert(want.take(want.len() as int) =~= want);
    text::join(&out, "      ")
}

/// The schema of one required path.
fn path_schema(description: &'static str) -> (r: Json)
    ensures
        is_schema(r, seq![param("path"@, "string"@, description@)], seq!["path"@]),
{
    let params = vec![Param { name: "path", ty: "string", description, choices: Vec::new() }];
    let required: Vec<&'static str> = vec!["path"];
    assert(param_views(params@) =~~= seq![param("path"@, "string"@, description@)]);
    assert(str_views(required@) =~= seq!["path"@]);
    schema(params, required)
}

/// The tools that the chat's model may call.
pub fn get_tools() -> (r: Vec<ToolSpec>)
    ensures
        r@.len() == 2,
        r@[0].kind@ == "function"@,
        r@[0].function.name@ == "list_files"@,
        r@[0].function.description@
            == "Lists all files and directory in the given path. Use this explore project structure."@,
        is_schema(
            *r@[0].function.parameters,
            seq![
                param(
                    "path"@,
                    "string"@,
                    "The directory whose content to list. Use '.' for current directory."@,
                ),
            ],
            seq!["path"@],
        ),
        r@[1].kind@ == "function"@,
        r@[1].function.name@ == "read_file"@,
        r@[1].function.description@ == "Read the contents of the given file."@,
        is_schema(
            *r@[1].function.parameters,
            seq![param("path"@, "string"@, "Path of the file to read."@)],
            seq!["path"@],
        ),
{
    let mut tools: Vec<ToolSpec> = Vec::new();
    tools.push(
        ToolSpec::function(
            "list_files",
            "Lists all files and directory in the given path. Use this explore project structure.",
            path_schema(
                "The directory whose content to list. Use '.' for current directory.",
            ),
        ),
    );
    tools.push(
        ToolSpec::function(
            "read_file",
            "Read the contents of the given file.",
            path_schema("Path of the file to read."),
        ),
    );
    tools
}

} // verus!
