use grok_cli::agent::prompt::{build, first_sentence, Surroundings};
use grok_cli::agent::subagent::{discover, parse, SubagentDefinition};
use grok_cli::agent::task::register_if_available;
use grok_cli::config::{
    load, CliOverrides, Config, ConfigFile, Environment, MemoryFile, PermissionMode,
};
use grok_cli::frontmatter::SourceFile;
use grok_cli::tools::ToolRegistry;

fn config_at(workspace: &str, mode: PermissionMode) -> Config {
    load(
        workspace,
        ConfigFile::default(),
        &Environment { api_key: None, model: None, base_url: None },
        &CliOverrides {
            model: None,
            base_url: None,
            permission_mode: Some(mode),
            max_tokens: None,
        },
    )
}

fn surroundings() -> Surroundings {
    Surroundings {
        platform: "linux".into(),
        today: "2026-01-01".into(),
        is_git_repo: false,
        memory: vec![],
    }
}

fn auditor() -> SubagentDefinition {
    SubagentDefinition {
        name: "auditor".into(),
        description: "reviews a diff".into(),
        prompt: "You review code.".into(),
        tools: None,
        model: None,
    }
}

fn source(name: &str, text: &str) -> SourceFile {
    SourceFile { path: format!("/repo/.grok/agents/{name}"), text: text.to_string() }
}

#[test]
fn the_prompt_lists_the_tools_that_actually_exist() {
    let tools = ToolRegistry::with_builtins();
    let prompt = build(
        &config_at("/repo", PermissionMode::Default),
        &tools,
        &vec![],
        &vec![],
        &surroundings(),
    );

    for name in tools.names() {
        assert!(prompt.contains(&format!("`{name}`")), "prompt omits {name}");
    }
}

#[test]
fn plan_mode_says_so_and_omits_the_tools_it_hides() {
    let tools = ToolRegistry::with_builtins().read_only();
    let prompt = build(
        &config_at("/repo", PermissionMode::Plan),
        &tools,
        &vec![],
        &vec![],
        &surroundings(),
    );

    assert!(prompt.contains("plan mode"), "the model must know it cannot act");
    assert!(!prompt.contains("`bash`"), "advertising a hidden tool causes confident failures");
    assert!(prompt.contains("`read_file`"));
}

#[test]
fn project_instructions_come_last_so_they_win_conflicts() {
    let with_memory = Surroundings {
        memory: vec![MemoryFile {
            path: "/repo/GROK.md".into(),
            content: "Always use tabs.".into(),
        }],
        ..surroundings()
    };
    let prompt = build(
        &config_at("/repo", PermissionMode::Default),
        &ToolRegistry::with_builtins(),
        &vec![],
        &vec![],
        &with_memory,
    );

    let instructions_at = prompt.find("Always use tabs.").expect("GROK.md is included");
    let identity_at = prompt.find("You are grok-cli").expect("identity present");
    assert!(identity_at < instructions_at, "later text wins, so user rules go last");
    assert!(prompt.contains("take precedence"), "and the model is told they do");
}

#[test]
fn a_project_without_grok_md_gets_no_instructions_section() {
    let prompt = build(
        &config_at("/repo", PermissionMode::Default),
        &ToolRegistry::with_builtins(),
        &vec![],
        &vec![],
        &surroundings(),
    );
    assert!(!prompt.contains("# Project instructions"));
}

#[test]
fn hook_context_is_appended_as_session_context() {
    let prompt = build(
        &config_at("/repo", PermissionMode::Default),
        &ToolRegistry::with_builtins(),
        &vec![],
        &vec!["current branch: main".into()],
        &surroundings(),
    );
    assert!(prompt.contains("# Session context"));
    assert!(prompt.contains("current branch: main"));
}

#[test]
fn subagents_are_advertised_only_when_some_are_defined() {
    let config = config_at("/repo", PermissionMode::Default);
    let tools = ToolRegistry::with_builtins();

    assert!(!build(&config, &tools, &vec![], &vec![], &surroundings()).contains("# Subagents"));

    let with_agents = build(&config, &tools, &vec![auditor()], &vec![], &surroundings());
    assert!(with_agents.contains("# Subagents"));
    assert!(with_agents.contains("`auditor` — reviews a diff"));
}

#[test]
fn git_repositories_are_flagged() {
    let config = config_at("/repo", PermissionMode::Default);
    let tools = ToolRegistry::with_builtins();
    assert!(!build(&config, &tools, &vec![], &vec![], &surroundings()).contains("git repository"));

    let inside = Surroundings { is_git_repo: true, ..surroundings() };
    assert!(build(&config, &tools, &vec![], &vec![], &inside).contains("git repository"));
}

#[test]
fn tool_summaries_are_trimmed_to_one_sentence() {
    assert_eq!(first_sentence("Does a thing. And then another."), "Does a thing.");
    assert_eq!(first_sentence("No trailing period"), "No trailing period");
}

#[test]
fn a_definition_parses_its_frontmatter_and_body() {
    let text = "---\nname: auditor\ndescription: Reviews a diff\ntools: read_file, grep\nmodel: grok-4\n---\n\nYou review code.\n";
    let def = parse(text, "/x/auditor.md").unwrap();

    assert_eq!(def.name, "auditor");
    assert_eq!(def.description, "Reviews a diff");
    assert_eq!(def.tools.as_deref(), Some(&["read_file".to_string(), "grep".to_string()][..]));
    assert_eq!(def.model.as_deref(), Some("grok-4"));
    assert_eq!(def.prompt, "You review code.");
}

#[test]
fn a_yaml_array_tool_list_parses_the_same_as_a_comma_list() {
    let text = "---\ntools: [read_file, \"grep\"]\n---\nbody\n";
    let def = parse(text, "/x/a.md").unwrap();
    assert_eq!(def.tools.as_deref(), Some(&["read_file".to_string(), "grep".to_string()][..]));
}

#[test]
fn the_filename_supplies_a_missing_name() {
    let def = parse("---\ndescription: x\n---\nbody\n", "/x/searcher.md").unwrap();
    assert_eq!(def.name, "searcher");
}

#[test]
fn a_file_without_frontmatter_is_all_prompt() {
    let def = parse("Just a prompt.\n", "/x/plain.md").unwrap();
    assert_eq!(def.name, "plain");
    assert_eq!(def.prompt, "Just a prompt.");
    assert!(def.tools.is_none(), "no restriction means inherit the parent's tools");
}

#[test]
fn a_definition_with_no_body_is_rejected() {
    assert!(parse("---\nname: empty\n---\n\n   \n", "/x/empty.md").is_none());
}

#[test]
fn discovery_reads_project_definitions() {
    let found = discover(&vec![
        vec![],
        vec![
            source("auditor.md", "---\ndescription: reviews\n---\nYou review.\n"),
            source("notes.txt", "ignored, not markdown"),
        ],
    ]);
    assert_eq!(found.len(), 1, "only .md files are definitions");
    assert_eq!(found[0].name, "auditor");
}

#[test]
fn a_malformed_definition_does_not_cost_the_others() {
    let found = discover(&vec![
        vec![],
        vec![
            source("broken.md", "---\nname: broken\n---\n"),
            source("good.md", "---\nname: good\n---\nWorks.\n"),
        ],
    ]);
    assert_eq!(found.len(), 1);
    assert_eq!(found[0].name, "good");
}

#[test]
fn task_is_not_registered_when_no_subagents_exist() {
    let mut registry = ToolRegistry::with_builtins();
    register_if_available(&mut registry, &vec![]);
    assert!(registry.get("task").is_none(), "nothing to delegate to");
}

#[test]
fn task_is_registered_once_a_subagent_exists() {
    let mut registry = ToolRegistry::with_builtins();
    let defs = vec![SubagentDefinition {
        name: "auditor".into(),
        description: "reviews".into(),
        prompt: "You review.".into(),
        tools: None,
        model: None,
    }];

    register_if_available(&mut registry, &defs);
    let task = registry.get("task").expect("task is available");
    assert!(task.description.contains("Delegate"));
    let agent = task.parameters.get("properties").unwrap().get("agent").unwrap();
    assert!(agent.get_str("description").unwrap().contains("auditor"));
}
