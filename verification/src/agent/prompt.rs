//! System prompt assembly.
//!
//! The prompt is built fresh from live state: the actual tool list, the actual
//! permission mode, the actual `GROK.md` files. Identity comes first, then the
//! environment, then the user's instructions, because later text wins conflicts.
use vstd::prelude::*;
use vstd::string::StringExecFns;
use std::sync::Arc;
use crate::agent::subagent::{definition_views, DefinitionView, SubagentDefinition};
use crate::config::{memory_views, mode_description, mode_name, Config, MemoryFile, PermissionMode};
use crate::text;
use crate::tools::{ToolInfo, ToolRegistry};

verus! {

/// Core identity and operating rules.
pub const IDENTITY: &'static str = "You are grok-cli, an agentic coding assistant running in a terminal on the user's machine. You have direct access to their filesystem and shell through tools, and you act on their code rather than only describing what to do.\n\n# Working style\n\n- Act rather than propose. If the user asks for a change, make it. Explain afterwards, briefly.\n- Find things by searching, not by guessing. Use `grep` and `glob` to locate code; read a file before you edit it.\n- Prefer `edit_file` over `write_file` for existing files. Rewriting a whole file to change three lines risks losing everything else in it.\n- Verify your work. If the project has tests or a type checker, run them after a change and fix what breaks.\n- Match the surrounding code. Follow the file's existing naming, comment density, error handling and idiom instead of importing your own conventions.\n- Never invent APIs, flags, or file paths. Check that they exist.\n\n# Communicating\n\n- Be concise. The user is reading in a terminal, not a document.\n- Reference code as `path/to/file.rs:42` so it is clickable.\n- Report outcomes honestly. If tests fail, say so and show the failure. If you skipped part of the task, say which part and why. Do not claim something works when you have not checked.\n- Do not narrate tool calls. The interface already shows them.\n\n# Tasks\n\nUse `todo_write` for any task with three or more steps: it is how the user follows a long run. Keep exactly one task in progress, and mark each one completed as soon as it is done, not in a batch at the end.";

/// Prompt used for the compaction summary call.
pub const COMPACTION_SYSTEM: &'static str = "You are summarizing the earlier part of a coding session so it can be dropped from context while the work continues.\n\nWrite a dense summary that preserves everything needed to carry on:\n\n- What the user asked for, in their own terms, including anything they corrected or ruled out.\n- Files examined or changed, by path, and what changed in each.\n- Decisions made and the reasoning behind them.\n- Commands run and what they showed — especially failures.\n- What is done, what is in progress, and what remains.\n- Any constraint, preference or gotcha that would cause a mistake if forgotten.\n\nPrefer specifics over description. `src/auth.rs:42 expiry check used < instead of <=, fixed` is useful; `worked on authentication` is not. Do not add commentary about the summary itself.";

pub const PLAN_NOTE: &'static str = "\nYou are in plan mode: you can read and search, but you cannot edit files or run commands. Investigate, then present a concrete plan and let the user approve it.\n";

pub const SUBAGENT_NOTE: &'static str = "\n# Subagents\n\nDelegate with the `task` tool when a job is self-contained and would otherwise fill this conversation with intermediate output.\n\n";

pub const INSTRUCTIONS_NOTE: &'static str = "These come from GROK.md files in this project. They take precedence over the general guidance above.\n";

/// What the prompt says of the machine and the project.
#[derive(Debug)]
pub struct Surroundings {
    pub platform: String,
    pub today: String,
    /// Whether the workspace is a git repository.
    pub is_git_repo: bool,
    /// The `GROK.md` files that apply, the most specific last.
    pub memory: Vec<MemoryFile>,
}

/// The first sentence of a text.
pub open spec fn opening_sentence(s: Seq<char>) -> Seq<char> {
    match text::found(s, ". "@) {
        Some(i) => s.take(i + 1),
        None => s,
    }
}

/// First sentence of a tool description, for the one-line summary.
pub fn first_sentence(s: &str) -> (r: String)
    ensures
        r@ == opening_sentence(s@),
{
    let v = text::chars_of(s);
    let p = text::chars_of(". ");
    proof {
        reveal_strlit(". ");
    }
    match text::find_in(&v, &p, 0) {
        Some(i) => {
            let r = text::string_between(&v, 0, i + 1);
            assert(r@ =~= s@.take(i + 1));
            r
        },
        None => s.to_owned(),
    }
}

/// One line for each tool.
pub open spec fn tool_lines(tools: Seq<Arc<ToolInfo>>) -> Seq<char>
    decreases tools.len(),
{
    if tools.len() == 0 {
        Seq::empty()
    } else {
        tool_lines(tools.drop_last()) + "- `"@ + tools.last().name@ + "` — "@ + opening_sentence(
            tools.last().description@,
        ) + "\n"@
    }
}

/// One line for each subagent.
pub open spec fn agent_lines(agents: Seq<DefinitionView>) -> Seq<char>
    decreases agents.len(),
{
    if agents.len() == 0 {
        Seq::empty()
    } else {
        agent_lines(agents.drop_last()) + "- `"@ + agents.last().name + "` — "@
            + agents.last().description + "\n"@
    }
}

/// The instructions of the user's files.
pub open spec fn instruction_blocks(files: Seq<(Seq<char>, Seq<char>)>) -> Seq<char>
    decreases files.len(),
{
    if files.len() == 0 {
        Seq::empty()
    } else {
        instruction_blocks(files.drop_last()) + "\n<instructions from=\""@ + files.last().0
            + "\">\n"@ + text::trimmed(files.last().1) + "\n</instructions>\n"@
    }
}

/// What hooks add to the session.
pub open spec fn context_lines(items: Seq<Seq<char>>) -> Seq<char>
    decreases items.len(),
{
    if items.len() == 0 {
        Seq::empty()
    } else {
        context_lines(items.drop_last()) + text::trimmed(items.last()) + "\n"@
    }
}

/// What the prompt says of where the agent runs.
pub open spec fn environment_section(
    workspace: Seq<char>,
    platform: Seq<char>,
    model: Seq<char>,
    today: Seq<char>,
    mode: PermissionMode,
    is_git_repo: bool,
) -> Seq<char> {
    "\n\n# Environment\n\n"@ + "- Working directory: "@ + workspace + "\n"@ + "- Platform: "@
        + platform + "\n"@ + "- Model: "@ + model + "\n"@ + "- Today's date: "@ + today + "\n"@
        + "- Permission mode: "@ + mode_name(mode) + " ("@ + mode_description(mode) + ")\n"@ + (
    if mode == PermissionMode::Plan {
        PLAN_NOTE@
    } else {
        Seq::empty()
    }) + (if is_git_repo {
        "- This directory is a git repository.\n"@
    } else {
        Seq::empty()
    })
}

/// What the prompt says of the subagents, where there are some.
pub open spec fn agents_section(agents: Seq<DefinitionView>) -> Seq<char> {
    if agents.len() == 0 {
        Seq::empty()
    } else {
        SUBAGENT_NOTE@ + agent_lines(agents)
    }
}

/// The user's instructions, where there are some.
pub open spec fn instructions_section(files: Seq<(Seq<char>, Seq<char>)>) -> Seq<char> {
    if files.len() == 0 {
        Seq::empty()
    } else {
        "\n# Project instructions\n\n"@ + INSTRUCTIONS_NOTE@ + instruction_blocks(files)
    }
}

/// What hooks add to the session, where they add something.
pub open spec fn context_section(items: Seq<Seq<char>>) -> Seq<char> {
    if items.len() == 0 {
        Seq::empty()
    } else {
        "\n# Session context\n\n"@ + context_lines(items)
    }
}

/// The full system prompt.
pub open spec fn system_prompt(
    config: Config,
    tools: Seq<Arc<ToolInfo>>,
    agents: Seq<DefinitionView>,
    extra: Seq<Seq<char>>,
    s: Surroundings,
) -> Seq<char> {
    IDENTITY@ + environment_section(
        config.workspace@,
        s.platform@,
        config.model@,
        s.today@,
        config.permission_mode,
        s.is_git_repo,
    ) + "\n# Tools\n\n"@ + tool_lines(tools) + agents_section(agents) + instructions_section(
        memory_views(s.memory@),
    ) + context_section(extra)
}

fn write_environment(config: &Config, s: &Surroundings) -> (r: String)
    ensures
        r@ == environment_section(
            config.workspace@,
            s.platform@,
            config.model@,
            s.today@,
            config.permission_mode,
            s.is_git_repo,
        ),
{
    let mut out = "\n\n# Environment\n\n".to_owned();
    out.append("- Working directory: ");
    out.append(&config.workspace);
    out.append("\n");
    out.append("- Platform: ");
    out.append(&s.platform);
    out.append("\n");
    out.append("- Model: ");
    out.append(&config.model);
    out.append("\n");
    out.append("- Today's date: ");
    out.append(&s.today);
    out.append("\n");
    out.append("- Permission mode: ");
    out.append(config.permission_mode.as_str());
    out.append(" (");
    out.append(config.permission_mode.describe());
    out.append(")\n");
    let ghost start = out@;
    if config.permission_mode == PermissionMode::Plan {
        out.append(PLAN_NOTE);
    } else {
        assert(out@ =~= start + Seq::<char>::empty());
    }
    let ghost mid = out@;
    if s.is_git_repo {
        out.append("- This directory is a git repository.\n");
    } else {
        assert(out@ =~= mid + Seq::<char>::empty());
    }
    out
}

fn write_tools(tools: &ToolRegistry) -> (r: String)
    ensures
        r@ == tool_lines(tools.tools@),
{
    let list = tools.iter();
    let mut out = String::new();
    let mut i: usize = 0;
    assert(out@ =~= Seq::<char>::empty());
    while i < list.len()
        invariant
            i <= list.len(),
            out@ == tool_lines(list@.take(i as int)),
        decreases list.len() - i,
    {
        assert(list@.take(i + 1).drop_last() =~= list@.take(i as int));
        out.append("- `");
        out.append(&list[i].name);
        out.append("` — ");
        out.append(&first_sentence(&list[i].description));
        out.append("\n");
        i += 1;
    }
    assert(list@.take(list@.len() as int) =~= list@);
    out
}

fn write_agents(agents: &Vec<SubagentDefinition>) -> (r: String)
    ensures
        r@ == agents_section(definition_views(agents@)),
{
    let ghost all = definition_views(agents@);
    let mut out = String::new();
    assert(out@ =~= Seq::<char>::empty());
    assert(all.len() == agents@.len());
    if agents.len() == 0 {
        return out;
    }
    out.append(SUBAGENT_NOTE);
    assert(out@ =~= SUBAGENT_NOTE@ + agent_lines(all.take(0)));
    let mut i: usize = 0;
    while i < agents.len()
        invariant
            i <= agents.len(),
            all == definition_views(agents@),
            out@ == SUBAGENT_NOTE@ + agent_lines(all.take(i as int)),
        decreases agents.len() - i,
    {
        assert(all.take(i + 1).drop_last() =~= all.take(i as int));
        assert(all[i as int] == agents@[i as int]@);
        out.append("- `");
        out.append(&agents[i].name);
        out.append("` — ");
        out.append(&agents[i].description);
        out.append("\n");
        i += 1;
        assert(out@ =~= SUBAGENT_NOTE@ + agent_lines(all.take(i as int)));
    }
    assert(all.take(all.len() as int) =~= all);
    out
}

fn write_instructions(files: &Vec<MemoryFile>) -> (r: String)
    ensures
        r@ == instructions_section(memory_views(files@)),
{
    let ghost all = memory_views(files@);
    let mut out = String::new();
    assert(out@ =~= Seq::<char>::empty());
    assert(all.len() == files@.len());
    if files.len() == 0 {
        return out;
    }
    out.append("\n# Project instructions\n\n");
    out.append(INSTRUCTIONS_NOTE);
    let ghost head = "\n# Project instructions\n\n"@ + INSTRUCTIONS_NOTE@;
    assert(out@ =~= head + instruction_blocks(all.take(0)));
    let mut i: usize = 0;
    while i < files.len()
        invariant
            i <= files.len(),
            all == memory_views(files@),
            out@ == head + instruction_blocks(all.take(i as int)),
        decreases files.len() - i,
    {
        assert(all.take(i + 1).drop_last() =~= all.take(i as int));
        assert(all[i as int] == (files@[i as int].path@, files@[i as int].content@));
        out.append("\n<instructions from=\"");
        out.append(&files[i].path);
        out.append("\">\n");
        out.append(&text::trim(&files[i].content));
        out.append("\n</instructions>\n");
        i += 1;
        assert(out@ =~= head + instruction_blocks(all.take(i as int)));
    }
    assert(all.take(all.len() as int) =~= all);
    out
}

fn write_context(items: &Vec<String>) -> (r: String)
    ensures
        r@ == context_section(text::views(items@)),
{
    let ghost all = text::views(items@);
    let mut out = String::new();
    assert(out@ =~= Seq::<char>::empty());
    assert(all.len() == items@.len());
    if items.len() == 0 {
        return out;
    }
    out.append("\n# Session context\n\n");
    let ghost head = "\n# Session context\n\n"@;
    assert(out@ =~= head + context_lines(all.take(0)));
    let mut i: usize = 0;
    while i < items.len()
        invariant
            i <= items.len(),
            all == text::views(items@),
            out@ == head + context_lines(all.take(i as int)),
        decreases items.len() - i,
    {
        assert(all.take(i + 1).drop_last() =~= all.take(i as int));
        assert(all[i as int] == items@[i as int]@);
        out.append(&text::trim(&items[i]));
        out.append("\n");
        i += 1;
        assert(out@ =~= head + context_lines(all.take(i as int)));
    }
    assert(all.take(all.len() as int) =~= all);
    out
}

/// Build the full system prompt.
pub fn build(
    config: &Config,
    tools: &ToolRegistry,
    subagents: &Vec<SubagentDefinition>,
    extra_context: &Vec<String>,
    surroundings: &Surroundings,
) -> (r: String)
    ensures
        r@ == system_prompt(
            *config,
            tools.tools@,
            definition_views(subagents@),
            text::views(extra_context@),
            *surroundings,
        ),
{
    let mut out = IDENTITY.to_owned();
    out.append(&write_environment(config, surroundings));
    out.append("\n# Tools\n\n");
    out.append(&write_tools(tools));
    out.append(&write_agents(subagents));
    out.append(&write_instructions(&surroundings.memory));
    out.append(&write_context(extra_context));
    out
}

/// The user's instructions come behind everything the harness says by itself,
/// and only what hooks add comes behind them.
pub proof fn law_instructions_come_last(
    config: Config,
    tools: Seq<Arc<ToolInfo>>,
    agents: Seq<DefinitionView>,
    extra: Seq<Seq<char>>,
    s: Surroundings,
)
    ensures
        text::ends_with(
            system_prompt(config, tools, agents, extra, s),
            instructions_section(memory_views(s.memory@)) + context_section(extra),
        ),
        text::starts_with(system_prompt(config, tools, agents, extra, s), IDENTITY@),
{
    let p = system_prompt(config, tools, agents, extra, s);
    let tail = instructions_section(memory_views(s.memory@)) + context_section(extra);
    assert(p.subrange(p.len() - tail.len(), p.len() as int) =~= tail);
    assert(p.subrange(0, IDENTITY@.len() as int) =~= IDENTITY@);
}

} // verus!
