//! Slash commands.
//!
//! Built-ins change harness state: they resolve to a [`CommandAction`] that the
//! front end performs. Custom commands are markdown files: prompt templates in
//! which `$ARGUMENTS` and `$1` to `$9` are replaced, sent as a normal message.
use vstd::prelude::*;
use vstd::string::StringExecFns;
use crate::api::types::clone_text;
use crate::config::{self, mode_name, mode_named, PermissionMode};
use crate::frontmatter::{
    fence_of, read_fence, read_setting, setting_of, Fence, FenceView, SourceFile,
};
use crate::matching::{lowercase, to_lower};
use crate::order::{
    lemma_overlaid_map, lemma_overlaid_unique, lemma_sorted_contains, lemma_sorted_map, overlaid,
    overlay_named, sort_named, sorted_by, unique_names, Named,
};
use crate::text;
use crate::util;

verus! {

/// What the front end should do in response to a slash command.
#[derive(Debug, PartialEq, Eq)]
pub enum CommandAction {
    /// Show text in the transcript. No model call.
    Show(String),
    /// A report only the front end can produce, because it needs live state.
    /// Carries the command name.
    Report(String),
    /// Send this text to the model as a user message.
    Prompt(String),
    /// Switch model.
    SetModel(String),
    /// Switch permission mode.
    SetMode(PermissionMode),
    /// Open the model picker.
    PickModel,
    /// Open the mode picker.
    PickMode,
    /// Open the session picker.
    PickSession,
    /// Drop the conversation, keeping the system prompt.
    Clear,
    /// Summarize and drop old history now.
    Compact,
    /// Write a GROK.md for this project.
    InitProject,
    /// Leave.
    Quit,
    /// Nothing matched.
    Unknown(String),
}

/// An action, with its text.
pub enum ActionView {
    Show(Seq<char>),
    Report(Seq<char>),
    Prompt(Seq<char>),
    SetModel(Seq<char>),
    SetMode(PermissionMode),
    PickModel,
    PickMode,
    PickSession,
    Clear,
    Compact,
    InitProject,
    Quit,
    Unknown(Seq<char>),
}

impl View for CommandAction {
    type V = ActionView;

    open spec fn view(&self) -> ActionView {
        match *self {
            CommandAction::Show(s) => ActionView::Show(s@),
            CommandAction::Report(s) => ActionView::Report(s@),
            CommandAction::Prompt(s) => ActionView::Prompt(s@),
            CommandAction::SetModel(s) => ActionView::SetModel(s@),
            CommandAction::SetMode(m) => ActionView::SetMode(m),
            CommandAction::PickModel => ActionView::PickModel,
            CommandAction::PickMode => ActionView::PickMode,
            CommandAction::PickSession => ActionView::PickSession,
            CommandAction::Clear => ActionView::Clear,
            CommandAction::Compact => ActionView::Compact,
            CommandAction::InitProject => ActionView::InitProject,
            CommandAction::Quit => ActionView::Quit,
            CommandAction::Unknown(s) => ActionView::Unknown(s@),
        }
    }
}

/// A command the user can invoke.
#[derive(Debug, PartialEq, Eq)]
pub struct SlashCommand {
    pub name: String,
    pub description: String,
    /// Hint shown after the name in the palette, e.g. `<path>`.
    pub argument_hint: Option<String>,
    /// Present for custom commands: the template body.
    pub template: Option<String>,
}

/// A command, as text.
pub struct CommandView {
    pub name: Seq<char>,
    pub description: Seq<char>,
    pub argument_hint: Option<Seq<char>>,
    pub template: Option<Seq<char>>,
}

impl View for SlashCommand {
    type V = CommandView;

    open spec fn view(&self) -> CommandView {
        CommandView {
            name: self.name@,
            description: self.description@,
            argument_hint: text::opt_view(self.argument_hint),
            template: text::opt_view(self.template),
        }
    }
}

impl Clone for SlashCommand {
    fn clone(&self) -> (r: Self)
        ensures
            r@ == self@,
    {
        SlashCommand {
            name: self.name.clone(),
            description: self.description.clone(),
            argument_hint: clone_text(&self.argument_hint),
            template: clone_text(&self.template),
        }
    }
}

impl Named for SlashCommand {
    open spec fn key(&self) -> Seq<char> {
        self.name@
    }

    fn key_text(&self) -> (r: &str) {
        self.name.as_str()
    }
}

/// The views of commands.
pub open spec fn command_views(list: Seq<SlashCommand>) -> Seq<CommandView> {
    list.map_values(|c: SlashCommand| c@)
}

/// What a command goes by.
pub open spec fn by_name() -> spec_fn(CommandView) -> Seq<char> {
    |c: CommandView| c.name
}

/// How the palette renders a command.
pub open spec fn displayed(c: CommandView) -> Seq<char> {
    match c.argument_hint {
        Some(hint) => "/"@ + c.name + " "@ + hint,
        None => "/"@ + c.name,
    }
}

impl SlashCommand {
    /// How the palette renders this entry.
    pub fn display(&self) -> (r: String)
        ensures
            r@ == displayed(self@),
    {
        let mut s = "/".to_owned();
        s.append(&self.name);
        match &self.argument_hint {
            Some(hint) => {
                s.append(" ");
                s.append(hint);
            },
            None => {},
        }
        s
    }
}

// ---------------------------------------------------------------------------
// Which commands there are
// ---------------------------------------------------------------------------

pub open spec fn builtin(name: Seq<char>, description: Seq<char>, hint: Option<Seq<char>>) -> CommandView {
    CommandView { name, description, argument_hint: hint, template: None }
}

/// The built-in commands, in the order the palette shows them.
pub open spec fn builtin_commands() -> Seq<CommandView> {
    seq![
        builtin("help"@, "Show available commands and keybindings"@, None),
        builtin("model"@, "Show or switch the model"@, Some("[name]"@)),
        builtin("mode"@, "Show or switch the permission mode"@, Some("[name]"@)),
        builtin("clear"@, "Start a fresh conversation"@, None),
        builtin("compact"@, "Summarize and shorten the conversation now"@, None),
        builtin("context"@, "Show what is currently filling the context window"@, None),
        builtin("cost"@, "Show token usage for this session"@, None),
        builtin("tools"@, "List available tools"@, None),
        builtin("mcp"@, "Show connected MCP servers"@, None),
        builtin("agents"@, "List available subagents"@, None),
        builtin("resume"@, "Switch to an earlier session"@, None),
        builtin("init"@, "Write a GROK.md describing this project"@, None),
        builtin("quit"@, "Exit grok-cli"@, None),
    ]
}

fn entry(name: &str, description: &str, hint: Option<&str>) -> (r: SlashCommand)
    ensures
        r@ == builtin(name@, description@, config::opt_str(hint)),
{
    SlashCommand {
        name: name.to_owned(),
        description: description.to_owned(),
        argument_hint: match hint {
            Some(h) => Some(h.to_owned()),
            None => None,
        },
        template: None,
    }
}

/// Built-in commands, in the order the palette shows them.
pub fn builtins() -> (r: Vec<SlashCommand>)
    ensures
        command_views(r@) == builtin_commands(),
{
    let mut v: Vec<SlashCommand> = Vec::new();
    v.push(entry("help", "Show available commands and keybindings", None));
    v.push(entry("model", "Show or switch the model", Some("[name]")));
    v.push(entry("mode", "Show or switch the permission mode", Some("[name]")));
    v.push(entry("clear", "Start a fresh conversation", None));
    v.push(entry("compact", "Summarize and shorten the conversation now", None));
    v.push(entry("context", "Show what is currently filling the context window", None));
    v.push(entry("cost", "Show token usage for this session", None));
    v.push(entry("tools", "List available tools", None));
    v.push(entry("mcp", "Show connected MCP servers", None));
    v.push(entry("agents", "List available subagents", None));
    v.push(entry("resume", "Switch to an earlier session", None));
    v.push(entry("init", "Write a GROK.md describing this project", None));
    v.push(entry("quit", "Exit grok-cli", None));
    assert(command_views(v@) =~= builtin_commands());
    v
}

/// Copies commands.
fn copied(list: &Vec<SlashCommand>) -> (r: Vec<SlashCommand>)
    ensures
        command_views(r@) == command_views(list@),
{
    let mut out: Vec<SlashCommand> = Vec::new();
    let mut i: usize = 0;
    assert(command_views(out@) =~= command_views(list@).take(0));
    while i < list.len()
        invariant
            i <= list.len(),
            command_views(out@) == command_views(list@).take(i as int),
        decreases list.len() - i,
    {
        let ghost before = command_views(out@);
        let c = list[i].clone();
        let ghost cv = c@;
        out.push(c);
        assert(command_views(out@) =~= before.push(cv));
        i += 1;
        assert(command_views(out@) =~= command_views(list@).take(i as int));
    }
    assert(command_views(list@).take(list@.len() as int) =~= command_views(list@));
    out
}

/// Built-in and custom commands together. A custom command may deliberately
/// shadow a built-in.
pub open spec fn all_commands(custom: Seq<CommandView>) -> Seq<CommandView> {
    overlaid(builtin_commands(), custom, by_name())
}

/// Built-ins plus the custom commands.
pub fn all(custom: &Vec<SlashCommand>) -> (r: Vec<SlashCommand>)
    ensures
        command_views(r@) == all_commands(command_views(custom@)),
{
    let mut commands = builtins();
    let ghost before = commands@;
    let more = copied(custom);
    let ghost added = more@;
    overlay_named(&mut commands, more);
    proof {
        lemma_overlaid_map(
            before,
            added,
            |c: SlashCommand| c@,
            |c: SlashCommand| c.key(),
            by_name(),
        );
    }
    commands
}

/// No two commands share a name.
pub proof fn law_command_names_are_unique(custom: Seq<CommandView>)
    ensures
        unique_names(all_commands(custom), by_name()),
{
    lemma_builtin_names();
    lemma_overlaid_unique(builtin_commands(), custom, by_name());
}

/// Where custom commands lie, the user's first so that the project's win.
pub fn command_dirs(home: Option<&str>, workspace: &str) -> (r: Vec<String>)
    ensures
        text::views(r@) == config::layered(config::opt_str(home), workspace@, "commands"@),
{
    config::layered_dirs(home, workspace, "commands")
}

/// What the lines before a template say: the description and the hint.
pub open spec fn command_settings(lines: Seq<Seq<char>>) -> (Seq<char>, Option<Seq<char>>)
    decreases lines.len(),
{
    if lines.len() == 0 {
        (Seq::empty(), None)
    } else {
        let (description, hint) = command_settings(lines.drop_last());
        match setting_of(lines.last()) {
            None => (description, hint),
            Some((key, value)) => if key == "description"@ {
                (value, hint)
            } else if key == "argument-hint"@ || key == "argument_hint"@ {
                (description, Some(value))
            } else {
                (description, hint)
            },
        }
    }
}

/// The settings and the template of a file. A fence that nothing closes is a
/// typo: the whole file is the template.
pub open spec fn command_parts(text: Seq<char>) -> (Seq<char>, Seq<char>) {
    match fence_of(text) {
        FenceView::Closed(block, body) => (block, body),
        _ => (Seq::empty(), text),
    }
}

/// The command that a file defines. One without a template defines none.
pub open spec fn custom_command(text: Seq<char>, path: Seq<char>) -> Option<CommandView> {
    match util::stem_of(path) {
        None => None,
        Some(name) => {
            let (block, body) = command_parts(text);
            let (description, hint) = command_settings(text::lines_of(block));
            if text::trimmed(body).len() == 0 {
                None
            } else {
                Some(
                    CommandView {
                        name,
                        description: if description.len() == 0 {
                            "custom command ("@ + name + ")"@
                        } else {
                            description
                        },
                        argument_hint: hint,
                        template: Some(text::trimmed(body)),
                    },
                )
            }
        },
    }
}

pub open spec fn opt_command(c: Option<SlashCommand>) -> Option<CommandView> {
    match c {
        Some(x) => Some(x@),
        None => None,
    }
}

/// Parse one custom command file.
pub fn parse_custom(text: &str, path: &str) -> (r: Option<SlashCommand>)
    ensures
        opt_command(r) == custom_command(text@, path@),
{
    let name = match util::file_stem(path) {
        Some(n) => n,
        None => {
            return None;
        },
    };
    let (block, body) = match read_fence(text) {
        Fence::Closed(a, b) => (a, b),
        _ => (String::new(), text.to_owned()),
    };
    assert(block@ =~= command_parts(text@).0);
    let lines = text::lines(&block);
    let ghost all = text::views(lines@);
    let mut description = String::new();
    let mut argument_hint: Option<String> = None;
    let mut i: usize = 0;
    assert(all.take(0) =~= Seq::<Seq<char>>::empty());
    assert(description@ =~= Seq::<char>::empty());
    while i < lines.len()
        invariant
            i <= lines.len(),
            all == text::views(lines@),
            command_settings(all.take(i as int)) == (
                description@,
                text::opt_view(argument_hint),
            ),
        decreases lines.len() - i,
    {
        assert(all.take(i + 1).drop_last() =~= all.take(i as int));
        assert(all[i as int] == lines@[i as int]@);
        match read_setting(&lines[i]) {
            None => {},
            Some((key, value)) => {
                if text::same(&key, "description") {
                    description = value;
                } else if text::same(&key, "argument-hint") || text::same(&key, "argument_hint") {
                    argument_hint = Some(value);
                }
            },
        }
        i += 1;
    }
    assert(all.take(all.len() as int) =~= all);
    let template = text::trim(&body);
    if template.as_str().is_empty() {
        return None;
    }
    if description.as_str().is_empty() {
        description = "custom command (".to_owned();
        description.append(&name);
        description.append(")");
    }
    Some(SlashCommand { name, description, argument_hint, template: Some(template) })
}

/// The commands that the files of a directory define.
pub open spec fn commands_in(files: Seq<SourceFile>) -> Seq<CommandView>
    decreases files.len(),
{
    if files.len() == 0 {
        Seq::empty()
    } else {
        let before = commands_in(files.drop_last());
        let f = files.last();
        if util::extension_of(f.path@) == Some("md"@) {
            match custom_command(f.text@, f.path@) {
                Some(c) => before.push(c),
                None => before,
            }
        } else {
            before
        }
    }
}

/// The custom commands of several directories: within each in the order of
/// names, and those of a later one in place of earlier ones.
pub open spec fn custom_commands(dirs: Seq<Vec<SourceFile>>) -> Seq<CommandView>
    decreases dirs.len(),
{
    if dirs.len() == 0 {
        Seq::empty()
    } else {
        overlaid(
            custom_commands(dirs.drop_last()),
            sorted_by(commands_in(dirs.last()@), by_name()),
            by_name(),
        )
    }
}

fn read_dir_commands(files: &Vec<SourceFile>) -> (r: Vec<SlashCommand>)
    ensures
        command_views(r@) == sorted_by(commands_in(files@), by_name()),
{
    let mut out: Vec<SlashCommand> = Vec::new();
    let mut i: usize = 0;
    assert(command_views(out@) =~= Seq::<CommandView>::empty());
    while i < files.len()
        invariant
            i <= files.len(),
            command_views(out@) == commands_in(files@.take(i as int)),
        decreases files.len() - i,
    {
        assert(files@.take(i + 1).drop_last() =~= files@.take(i as int));
        if util::has_extension(&files[i].path, "md") {
            match parse_custom(&files[i].text, &files[i].path) {
                Some(c) => {
                    let ghost before = command_views(out@);
                    let ghost cv = c@;
                    out.push(c);
                    assert(command_views(out@) =~= before.push(cv));
                },
                None => {},
            }
        }
        i += 1;
    }
    assert(files@.take(files@.len() as int) =~= files@);
    let ghost unsorted = out@;
    let sorted = sort_named(out);
    proof {
        lemma_sorted_map(
            unsorted,
            |c: SlashCommand| c@,
            |c: SlashCommand| c.key(),
            by_name(),
        );
    }
    sorted
}

/// The custom commands that the files of several directories define.
pub fn discover_custom(dirs: &Vec<Vec<SourceFile>>) -> (r: Vec<SlashCommand>)
    ensures
        command_views(r@) == custom_commands(dirs@),
{
    let mut found: Vec<SlashCommand> = Vec::new();
    let mut i: usize = 0;
    assert(command_views(found@) =~= Seq::<CommandView>::empty());
    while i < dirs.len()
        invariant
            i <= dirs.len(),
            command_views(found@) == custom_commands(dirs@.take(i as int)),
        decreases dirs.len() - i,
    {
        assert(dirs@.take(i + 1).drop_last() =~= dirs@.take(i as int));
        let batch = read_dir_commands(&dirs[i]);
        let ghost before = found@;
        let ghost added = batch@;
        overlay_named(&mut found, batch);
        proof {
            lemma_overlaid_map(
                before,
                added,
                |c: SlashCommand| c@,
                |c: SlashCommand| c.key(),
                by_name(),
            );
        }
        i += 1;
    }
    assert(dirs@.take(dirs@.len() as int) =~= dirs@);
    found
}

// ---------------------------------------------------------------------------
// What a command does
// ---------------------------------------------------------------------------

/// The placeholder of the argument at position `i`.
pub open spec fn placeholder(i: nat) -> Seq<char> {
    "$"@ + text::decimal(i + 1)
}

/// Whether a template says where its arguments go.
pub open spec fn has_placeholder(template: Seq<char>) -> bool {
    text::contains(template, "$ARGUMENTS"@) || exists|i: nat|
        i < 9 && text::contains(template, #[trigger] placeholder(i))
}

/// A template with the first `n` words in place of their placeholders.
pub open spec fn with_words(template: Seq<char>, words: Seq<Seq<char>>, n: nat) -> Seq<char>
    decreases n,
{
    if n == 0 {
        template
    } else {
        text::replaced(
            with_words(template, words, (n - 1) as nat),
            placeholder((n - 1) as nat),
            words[n - 1],
        )
    }
}

/// A template with its arguments.
pub open spec fn expanded(template: Seq<char>, args: Seq<char>) -> Seq<char> {
    let words = text::words_of(args);
    let n = if words.len() < 9 {
        words.len()
    } else {
        9
    };
    let filled = text::replaced(with_words(template, words, n), "$ARGUMENTS"@, args);
    if !has_placeholder(template) && args.len() > 0 {
        filled + "\n\n"@ + args
    } else {
        filled
    }
}

fn placeholder_text(i: usize) -> (r: String)
    requires
        i < 9,
    ensures
        r@ == placeholder(i as nat),
        r@.len() > 0,
{
    let mut s = "$".to_owned();
    proof {
        reveal_strlit("$");
    }
    s.append(&text::number((i + 1) as u64));
    s
}

fn finds_placeholder(template: &str) -> (r: bool)
    ensures
        r == has_placeholder(template@),
{
    if text::has(template, "$ARGUMENTS") {
        return true;
    }
    let mut i: usize = 0;
    while i < 9
        invariant
            i <= 9,
            !text::contains(template@, "$ARGUMENTS"@),
            forall|j: nat| j < i ==> !text::contains(template@, #[trigger] placeholder(j)),
        decreases 9 - i,
    {
        if text::has(template, &placeholder_text(i)) {
            assert(text::contains(template@, placeholder(i as nat)));
            return true;
        }
        i += 1;
    }
    false
}

/// Substitute arguments into a custom command's template.
///
/// `$ARGUMENTS` is replaced wherever it appears; positional `$1` to `$9` map to
/// words. A template with no placeholder gets the arguments appended, so that
/// the command does something sensible even when the author forgot to write one.
pub fn expand(template: &str, args: &str) -> (r: String)
    ensures
        r@ == expanded(template@, args@),
{
    let marked = finds_placeholder(template);
    let words = text::words(args);
    let ghost all = text::views(words@);
    let n: usize = if words.len() < 9 {
        words.len()
    } else {
        9
    };
    let mut out = template.to_owned();
    let mut i: usize = 0;
    while i < n
        invariant
            i <= n,
            n <= 9,
            n <= words.len(),
            all == text::views(words@),
            out@ == with_words(template@, all, i as nat),
        decreases n - i,
    {
        assert(all[i as int] == words@[i as int]@);
        out = text::replace(&out, &placeholder_text(i), &words[i]);
        i += 1;
    }
    proof {
        reveal_strlit("$ARGUMENTS");
    }
    out = text::replace(&out, "$ARGUMENTS", args);
    if !marked && !args.is_empty() {
        out.append("\n\n");
        out.append(args);
    }
    out
}

/// A template that says where its arguments go gets them nowhere else.
pub proof fn law_placeholders_decide(template: Seq<char>, args: Seq<char>)
    requires
        has_placeholder(template),
    ensures
        expanded(template, args) == text::replaced(
            with_words(
                template,
                text::words_of(args),
                if text::words_of(args).len() < 9 {
                    text::words_of(args).len()
                } else {
                    9
                },
            ),
            "$ARGUMENTS"@,
            args,
        ),
{
}

pub const INIT_PROMPT: &'static str = "Analyse this codebase and write a GROK.md at the repository root.\n\nGROK.md is read into your system prompt at the start of every session here, so it should contain what a competent engineer new to this repo would need and could not quickly infer:\n\n- What the project is and how its pieces fit together.\n- The commands that matter: build, test, lint, run.\n- Conventions this codebase actually follows, taken from the code rather than from general best practice.\n- Anything surprising: a non-obvious invariant, a gotcha, a constraint that has already bitten someone.\n\nKeep it short and specific. Do not pad it with generic advice, and do not list the directory tree — that is discoverable. If a GROK.md already exists, improve it rather than replacing it wholesale.";

pub const KEY_HELP: &'static str = "\nKeys\n\n  Enter               send\n  Shift+Enter         newline\n  Esc                 interrupt the current turn\n  Ctrl+C              interrupt, or quit when idle\n  Ctrl+D              quit\n  Up / Down           move within the prompt, or recall history\n  PageUp / PageDown   scroll a screen at a time\n  Ctrl+L              clear the screen\n  Shift+Tab           cycle permission mode\n";

/// The lines of the help for commands.
pub open spec fn command_lines(list: Seq<CommandView>) -> Seq<char>
    decreases list.len(),
{
    if list.len() == 0 {
        Seq::empty()
    } else {
        command_lines(list.drop_last()) + "  "@ + text::left_aligned(displayed(list.last()), 22)
            + " "@ + list.last().description + "\n"@
    }
}

/// What `/help` shows.
pub open spec fn help(custom: Seq<CommandView>) -> Seq<char> {
    "Commands\n\n"@ + command_lines(all_commands(custom)) + KEY_HELP@
}

/// What `/help` shows.
pub fn help_text(custom: &Vec<SlashCommand>) -> (r: String)
    ensures
        r@ == help(command_views(custom@)),
{
    let list = all(custom);
    let ghost views = command_views(list@);
    let mut out = "Commands\n\n".to_owned();
    let mut i: usize = 0;
    assert(out@ =~= "Commands\n\n"@ + command_lines(views.take(0)));
    while i < list.len()
        invariant
            i <= list.len(),
            views == command_views(list@),
            out@ == "Commands\n\n"@ + command_lines(views.take(i as int)),
        decreases list.len() - i,
    {
        assert(views.take(i + 1).drop_last() =~= views.take(i as int));
        assert(views[i as int] == list@[i as int]@);
        out.append("  ");
        out.append(&text::pad_right(&list[i].display(), 22));
        out.append(" ");
        out.append(&list[i].description);
        out.append("\n");
        i += 1;
        assert(out@ =~= "Commands\n\n"@ + command_lines(views.take(i as int)));
    }
    assert(views.take(views.len() as int) =~= views);
    out.append(KEY_HELP);
    out
}

/// The names of the modes, in order.
pub open spec fn mode_names() -> Seq<Seq<char>> {
    seq![
        mode_name(PermissionMode::Default),
        mode_name(PermissionMode::AcceptEdits),
        mode_name(PermissionMode::Plan),
        mode_name(PermissionMode::BypassPermissions),
    ]
}

/// The template of the first command of a name, where it has one.
pub open spec fn template_of(custom: Seq<CommandView>, name: Seq<char>) -> Option<Seq<char>>
    decreases custom.len(),
{
    if custom.len() == 0 {
        None
    } else if custom[0].name == name {
        custom[0].template
    } else {
        template_of(custom.skip(1), name)
    }
}

/// What a built-in command does.
pub open spec fn builtin_action(name: Seq<char>, args: Seq<char>, custom: Seq<CommandView>) -> ActionView {
    if name == "help"@ || name == "?"@ {
        ActionView::Show(help(custom))
    } else if name == "quit"@ || name == "exit"@ || name == "q"@ {
        ActionView::Quit
    } else if name == "clear"@ || name == "new"@ {
        ActionView::Clear
    } else if name == "compact"@ {
        ActionView::Compact
    } else if name == "init"@ {
        ActionView::InitProject
    } else if name == "resume"@ {
        ActionView::PickSession
    } else if name == "model"@ {
        if args.len() == 0 {
            ActionView::PickModel
        } else {
            ActionView::SetModel(args)
        }
    } else if name == "mode"@ {
        if args.len() == 0 {
            ActionView::PickMode
        } else {
            match mode_named(text::trimmed(args)) {
                Some(mode) => ActionView::SetMode(mode),
                None => ActionView::Show(
                    "Unknown mode `"@ + args + "`. Valid modes: "@ + text::joined(
                        mode_names(),
                        ", "@,
                    ),
                ),
            }
        }
    } else if name == "context"@ || name == "cost"@ || name == "tools"@ || name == "mcp"@ || name
        == "agents"@ {
        ActionView::Report(name)
    } else {
        ActionView::Unknown(name)
    }
}

/// The name and the arguments in what follows the slash.
pub open spec fn name_and_args(rest: Seq<char>) -> (Seq<char>, Seq<char>) {
    match text::cut_at_space(rest) {
        Some((name, args)) => (name, text::trimmed(args)),
        None => (rest, Seq::empty()),
    }
}

/// What a line of input does. Custom commands come first, so that they can
/// shadow built-ins.
pub open spec fn dispatched(input: Seq<char>, custom: Seq<CommandView>) -> ActionView {
    match text::stripped_prefix(text::trimmed(input), "/"@) {
        None => ActionView::Prompt(text::trimmed(input)),
        Some(rest) => {
            let (name, args) = name_and_args(rest);
            match template_of(custom, name) {
                Some(template) => ActionView::Prompt(expanded(template, args)),
                None => builtin_action(name, args, custom),
            }
        },
    }
}

/// The template of the first command of a name, where it has one.
fn find_template(custom: &Vec<SlashCommand>, name: &str) -> (r: Option<String>)
    ensures
        text::opt_view(r) == template_of(command_views(custom@), name@),
{
    let ghost all = command_views(custom@);
    let mut i: usize = 0;
    assert(all.skip(0) =~= all);
    while i < custom.len()
        invariant
            i <= custom.len(),
            all == command_views(custom@),
            template_of(all.skip(i as int), name@) == template_of(all, name@),
        decreases custom.len() - i,
    {
        proof {
            assert(all.skip(i as int)[0] == all[i as int]);
            assert(all[i as int] == custom@[i as int]@);
            assert(all.skip(i as int).skip(1) =~= all.skip(i + 1));
        }
        if text::same(&custom[i].name, name) {
            return clone_text(&custom[i].template);
        }
        i += 1;
    }
    None
}

/// What `/mode` does with an argument.
fn mode_action(args: &str) -> (r: CommandAction)
    requires
        args@.len() > 0,
    ensures
        r@ == builtin_action("mode"@, args@, Seq::empty()),
{
    proof {
        lemma_mode_is_mode(args@);
    }
    match PermissionMode::parse(args) {
        Some(mode) => CommandAction::SetMode(mode),
        None => {
            let mut names: Vec<String> = Vec::new();
            names.push(PermissionMode::Default.as_str().to_owned());
            names.push(PermissionMode::AcceptEdits.as_str().to_owned());
            names.push(PermissionMode::Plan.as_str().to_owned());
            names.push(PermissionMode::BypassPermissions.as_str().to_owned());
            assert(text::views(names@) =~= mode_names());
            let mut s = "Unknown mode `".to_owned();
            s.append(args);
            s.append("`. Valid modes: ");
            s.append(&text::join(&names, ", "));
            CommandAction::Show(s)
        },
    }
}

proof fn lemma_mode_is_mode(args: Seq<char>)
    requires
        args.len() > 0,
    ensures
        builtin_action("mode"@, args, Seq::empty()) == (match mode_named(text::trimmed(args)) {
            Some(mode) => ActionView::SetMode(mode),
            None => ActionView::Show(
                "Unknown mode `"@ + args + "`. Valid modes: "@ + text::joined(mode_names(), ", "@),
            ),
        }),
{
    lemma_command_words();
}

proof fn lemma_command_words()
    ensures
        "mode"@ != "help"@ && "mode"@ != "?"@ && "mode"@ != "quit"@ && "mode"@ != "exit"@ && "mode"@
            != "q"@ && "mode"@ != "clear"@ && "mode"@ != "new"@ && "mode"@ != "compact"@ && "mode"@
            != "init"@ && "mode"@ != "resume"@ && "mode"@ != "model"@,
{
    reveal_strlit("mode");
    reveal_strlit("help");
    reveal_strlit("?");
    reveal_strlit("quit");
    reveal_strlit("exit");
    reveal_strlit("q");
    reveal_strlit("clear");
    reveal_strlit("new");
    reveal_strlit("compact");
    reveal_strlit("init");
    reveal_strlit("resume");
    reveal_strlit("model");
    assert("mode"@.len() == 4 && "help"@.len() == 4 && "?"@.len() == 1 && "quit"@.len() == 4
        && "exit"@.len() == 4 && "q"@.len() == 1 && "clear"@.len() == 5 && "new"@.len() == 3
        && "compact"@.len() == 7 && "init"@.len() == 4 && "resume"@.len() == 6 && "model"@.len()
        == 5);
    assert("mode"@[0] == 'm' && "help"@[0] == 'h' && "quit"@[0] == 'q' && "exit"@[0] == 'e'
        && "init"@[0] == 'i');
}

/// What a built-in command does.
fn run_builtin(name: &str, args: &str, custom: &Vec<SlashCommand>) -> (r: CommandAction)
    ensures
        r@ == builtin_action(name@, args@, command_views(custom@)),
{
    if text::same(name, "help") || text::same(name, "?") {
        CommandAction::Show(help_text(custom))
    } else if text::same(name, "quit") || text::same(name, "exit") || text::same(name, "q") {
        CommandAction::Quit
    } else if text::same(name, "clear") || text::same(name, "new") {
        CommandAction::Clear
    } else if text::same(name, "compact") {
        CommandAction::Compact
    } else if text::same(name, "init") {
        CommandAction::InitProject
    } else if text::same(name, "resume") {
        CommandAction::PickSession
    } else if text::same(name, "model") {
        if args.is_empty() {
            CommandAction::PickModel
        } else {
            CommandAction::SetModel(args.to_owned())
        }
    } else if text::same(name, "mode") {
        if args.is_empty() {
            CommandAction::PickMode
        } else {
            proof {
                lemma_mode_is_mode(args@);
            }
            mode_action(args)
        }
    } else if text::same(name, "context") || text::same(name, "cost") || text::same(name, "tools")
        || text::same(name, "mcp") || text::same(name, "agents") {
        CommandAction::Report(name.to_owned())
    } else {
        CommandAction::Unknown(name.to_owned())
    }
}

/// Interpret a line of input beginning with `/`.
pub fn dispatch(input: &str, custom: &Vec<SlashCommand>) -> (r: CommandAction)
    ensures
        r@ == dispatched(input@, command_views(custom@)),
{
    let trimmed = text::trim(input);
    let rest = match text::strip_prefix(&trimmed, "/") {
        None => {
            return CommandAction::Prompt(trimmed);
        },
        Some(r) => r,
    };
    let (name, args) = match text::split_at_space(&rest) {
        Some((n, a)) => (n, text::trim(&a)),
        None => (rest.clone(), String::new()),
    };
    assert(args@ =~= name_and_args(rest@).1);
    match find_template(custom, &name) {
        Some(template) => CommandAction::Prompt(expand(&template, &args)),
        None => run_builtin(&name, &args, custom),
    }
}

/// Candidate completions for what has been typed so far.
pub open spec fn completions(prefix: Seq<char>, custom: Seq<CommandView>) -> Seq<CommandView> {
    let needle = lowercase(text::without_start(prefix, '/'));
    sorted_by(all_commands(custom).filter(matches_prefix(needle)), by_name())
}

/// Whether the name of a command begins with a text, whatever its case.
pub open spec fn matches_prefix(needle: Seq<char>) -> spec_fn(CommandView) -> bool {
    |c: CommandView| text::starts_with(lowercase(c.name), needle)
}

/// Candidate completions for the palette, given what has been typed so far.
pub fn complete(prefix: &str, custom: &Vec<SlashCommand>) -> (r: Vec<SlashCommand>)
    ensures
        command_views(r@) == completions(prefix@, command_views(custom@)),
{
    let needle = to_lower(&text::trim_start_char(prefix, '/'));
    let list = all(custom);
    let ghost views = command_views(list@);
    let ghost keep = matches_prefix(needle@);
    let mut out: Vec<SlashCommand> = Vec::new();
    let mut i: usize = 0;
    proof {
        reveal(Seq::filter);
    }
    assert(command_views(out@) =~= Seq::<CommandView>::empty());
    while i < list.len()
        invariant
            i <= list.len(),
            views == command_views(list@),
            keep == matches_prefix(needle@),
            command_views(out@) == views.take(i as int).filter(keep),
        decreases list.len() - i,
    {
        proof {
            reveal(Seq::filter);
            assert(views.take(i + 1).drop_last() =~= views.take(i as int));
            assert(views[i as int] == list@[i as int]@);
        }
        if text::begins(&to_lower(&list[i].name), &needle) {
            let ghost before = command_views(out@);
            let c = list[i].clone();
            let ghost cv = c@;
            out.push(c);
            assert(command_views(out@) =~= before.push(cv));
        }
        i += 1;
    }
    assert(views.take(views.len() as int) =~= views);
    let ghost unsorted = out@;
    let sorted = sort_named(out);
    proof {
        lemma_sorted_map(
            unsorted,
            |c: SlashCommand| c@,
            |c: SlashCommand| c.key(),
            by_name(),
        );
    }
    sorted
}

/// Where `/init` writes its output.
pub fn memory_path(workspace: &str) -> (r: String)
    ensures
        r@ == util::below(workspace@, config::MEMORY_FILE_NAME@),
{
    util::join_path(workspace, config::MEMORY_FILE_NAME)
}

// ---------------------------------------------------------------------------
// Laws
// ---------------------------------------------------------------------------

proof fn lemma_builtin_names()
    ensures
        unique_names(builtin_commands(), by_name()),
        forall|i: int|
            0 <= i < builtin_commands().len() ==> !(builtin_action(
                (#[trigger] builtin_commands()[i]).name,
                Seq::empty(),
                Seq::empty(),
            ) is Unknown),
{
    reveal_strlit("help");
    reveal_strlit("model");
    reveal_strlit("mode");
    reveal_strlit("clear");
    reveal_strlit("compact");
    reveal_strlit("context");
    reveal_strlit("cost");
    reveal_strlit("tools");
    reveal_strlit("mcp");
    reveal_strlit("agents");
    reveal_strlit("resume");
    reveal_strlit("init");
    reveal_strlit("quit");
    let b = builtin_commands();
    assert(b[0].name.len() == 4 && b[1].name.len() == 5 && b[2].name.len() == 4 && b[3].name.len()
        == 5 && b[4].name.len() == 7 && b[5].name.len() == 7 && b[6].name.len() == 4
        && b[7].name.len() == 5 && b[8].name.len() == 3 && b[9].name.len() == 6 && b[10].name.len()
        == 6 && b[11].name.len() == 4 && b[12].name.len() == 4);
    assert(b[0].name[0] == 'h' && b[2].name[0] == 'm' && b[6].name[0] == 'c' && b[11].name[0] == 'i'
        && b[12].name[0] == 'q');
    assert(b[1].name[0] == 'm' && b[3].name[0] == 'c' && b[7].name[0] == 't');
    assert(b[4].name[2] == 'm' && b[5].name[2] == 'n');
    assert(b[9].name[0] == 'a' && b[10].name[0] == 'r');
}

/// Every built-in command does something.
pub proof fn law_every_builtin_is_dispatched(i: int, args: Seq<char>, custom: Seq<CommandView>)
    requires
        0 <= i < builtin_commands().len(),
    ensures
        !(builtin_action(builtin_commands()[i].name, args, custom) is Unknown),
{
    lemma_builtin_names();
    let name = builtin_commands()[i].name;
    assert(!(builtin_action(name, Seq::empty(), Seq::empty()) is Unknown));
}

proof fn lemma_template_of(custom: Seq<CommandView>, name: Seq<char>)
    ensures
        (exists|i: int| 0 <= i < custom.len() && (#[trigger] custom[i]).name == name) && (forall|
            i: int,
        |
            0 <= i < custom.len() ==> (#[trigger] custom[i]).template is Some) ==> template_of(
            custom,
            name,
        ) is Some,
    decreases custom.len(),
{
    if custom.len() > 0 {
        let t = custom.skip(1);
        lemma_template_of(t, name);
        if custom[0].name != name && (exists|i: int|
            0 <= i < custom.len() && (#[trigger] custom[i]).name == name) && (forall|i: int|
            0 <= i < custom.len() ==> (#[trigger] custom[i]).template is Some) {
            let i = choose|i: int| 0 <= i < custom.len() && (#[trigger] custom[i]).name == name;
            assert(t[i - 1].name == name);
            assert forall|k: int| 0 <= k < t.len() implies (#[trigger] t[k]).template is Some by {
                assert(custom[k + 1].template is Some);
            }
        }
    }
}

proof fn lemma_overlaid_from(list: Seq<CommandView>, more: Seq<CommandView>, y: CommandView)
    requires
        overlaid(list, more, by_name()).contains(y),
    ensures
        list.contains(y) || more.contains(y),
    decreases more.len(),
{
    if more.len() > 0 {
        let l = overlaid(list, more.drop_last(), by_name());
        let key = by_name();
        let p = crate::order::not_named(key(more.last()), key);
        let f = l.filter(p);
        let o = overlaid(list, more, by_name());
        assert(o == f.push(more.last()));
        let j = choose|j: int| 0 <= j < o.len() && o[j] == y;
        if j < f.len() {
            assert(f[j] == y);
            assert(f.contains(y));
            l.lemma_filter_contains_rev(p, y);
            lemma_overlaid_from(list, more.drop_last(), y);
            if more.drop_last().contains(y) {
                let k = choose|k: int|
                    0 <= k < more.drop_last().len() && more.drop_last()[k] == y;
                assert(more[k] == y);
            }
        } else {
            assert(more[more.len() - 1] == y);
        }
    }
}

proof fn lemma_plain_name(name: Seq<char>)
    requires
        forall|i: int| 0 <= i < name.len() ==> !text::is_white(#[trigger] name[i]),
    ensures
        text::trimmed("/"@ + name) == "/"@ + name,
        text::stripped_prefix("/"@ + name, "/"@) == Some(name),
        name_and_args(name) == (name, Seq::<char>::empty()),
{
    reveal_strlit("/");
    let s = "/"@ + name;
    assert(s[0] == '/');
    assert(!text::is_white('/'));
    if name.len() > 0 {
        assert(s.last() == name[name.len() - 1]);
    } else {
        assert(s.last() == '/');
    }
    assert(s.subrange(0, 1) =~= "/"@);
    assert(s.skip(1) =~= name);
    lemma_no_space(name, 0);
}

proof fn lemma_no_space(s: Seq<char>, from: int)
    requires
        0 <= from,
        forall|i: int| 0 <= i < s.len() ==> !text::is_white(#[trigger] s[i]),
    ensures
        text::first_space(s, from) is None,
    decreases s.len() - from,
{
    if from < s.len() {
        lemma_no_space(s, from + 1);
    }
}

/// Every command of the palette is reached by its own name: typing it does
/// something. Names with white space in them cannot be typed, and custom
/// commands have templates.
pub proof fn law_every_listed_command_is_reachable(custom: Seq<CommandView>, i: int)
    requires
        forall|k: int| 0 <= k < custom.len() ==> (#[trigger] custom[k]).template is Some,
        0 <= i < all_commands(custom).len(),
        forall|k: int|
            0 <= k < all_commands(custom)[i].name.len() ==> !text::is_white(
                #[trigger] all_commands(custom)[i].name[k],
            ),
    ensures
        !(dispatched("/"@ + all_commands(custom)[i].name, custom) is Unknown),
{
    let c = all_commands(custom)[i];
    let name = c.name;
    lemma_plain_name(name);
    lemma_template_of(custom, name);
    assert(all_commands(custom).contains(c));
    lemma_overlaid_from(builtin_commands(), custom, c);
    if custom.contains(c) {
        let k = choose|k: int| 0 <= k < custom.len() && custom[k] == c;
        assert(custom[k].name == name);
        assert(template_of(custom, name) is Some);
    } else {
        let k = choose|k: int| 0 <= k < builtin_commands().len() && builtin_commands()[k] == c;
        law_every_builtin_is_dispatched(k, Seq::empty(), custom);
    }
}

/// A custom command comes before a built-in of its name.
pub proof fn law_custom_commands_shadow(custom: Seq<CommandView>, name: Seq<char>)
    requires
        template_of(custom, name) is Some,
        forall|k: int| 0 <= k < name.len() ==> !text::is_white(#[trigger] name[k]),
    ensures
        dispatched("/"@ + name, custom) == ActionView::Prompt(
            expanded(template_of(custom, name)->0, Seq::empty()),
        ),
{
    lemma_plain_name(name);
}

/// Completion offers only commands that there are, and all of them that begin
/// with what was typed.
pub proof fn law_completion_offers_real_commands(
    prefix: Seq<char>,
    custom: Seq<CommandView>,
    c: CommandView,
)
    ensures
        completions(prefix, custom).contains(c) <==> all_commands(custom).contains(c)
            && text::starts_with(lowercase(c.name), lowercase(text::without_start(prefix, '/'))),
{
    let needle = lowercase(text::without_start(prefix, '/'));
    let keep = matches_prefix(needle);
    let all = all_commands(custom);
    lemma_sorted_contains(all.filter(keep), by_name(), c);
    if all.filter(keep).contains(c) {
        all.lemma_filter_contains_rev(keep, c);
        let i = choose|i: int| 0 <= i < all.filter(keep).len() && all.filter(keep)[i] == c;
        all.lemma_filter_pred(keep, i);
        assert(keep(c));
    }
    if all.contains(c) && keep(c) {
        let i = choose|i: int| 0 <= i < all.len() && all[i] == c;
        all.lemma_filter_contains(keep, i);
    }
}

} // verus!
