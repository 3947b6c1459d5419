use grok_cli::commands::{
    all, builtins, command_dirs, complete, discover_custom, dispatch, expand, help_text,
    memory_path, parse_custom, CommandAction, SlashCommand,
};
use grok_cli::config::PermissionMode;
use grok_cli::frontmatter::SourceFile;

fn none() -> Vec<SlashCommand> {
    vec![]
}

fn project(name: &str, text: &str) -> Vec<SlashCommand> {
    let file = SourceFile {
        path: format!("/repo/.grok/commands/{name}.md"),
        text: text.to_string(),
    };
    discover_custom(&vec![vec![], vec![file]])
}

#[test]
fn plain_text_is_a_prompt_not_a_command() {
    assert_eq!(
        dispatch("fix the auth bug", &none()),
        CommandAction::Prompt("fix the auth bug".into())
    );
}

#[test]
fn built_ins_dispatch_to_their_actions() {
    assert_eq!(dispatch("/quit", &none()), CommandAction::Quit);
    assert_eq!(dispatch("/exit", &none()), CommandAction::Quit);
    assert_eq!(dispatch("/clear", &none()), CommandAction::Clear);
    assert_eq!(dispatch("/compact", &none()), CommandAction::Compact);
    assert_eq!(dispatch("/resume", &none()), CommandAction::PickSession);
    assert_eq!(dispatch("/init", &none()), CommandAction::InitProject);
}

#[test]
fn a_bare_model_or_mode_opens_a_picker_but_an_argument_sets_it() {
    assert_eq!(dispatch("/model", &none()), CommandAction::PickModel);
    assert_eq!(dispatch("/model grok-4", &none()), CommandAction::SetModel("grok-4".into()));
    assert_eq!(dispatch("/mode", &none()), CommandAction::PickMode);
    assert_eq!(dispatch("/mode plan", &none()), CommandAction::SetMode(PermissionMode::Plan));
}

#[test]
fn an_invalid_mode_lists_the_valid_ones() {
    let CommandAction::Show(text) = dispatch("/mode banana", &none()) else {
        panic!("expected an explanation");
    };
    assert!(text.contains("Unknown mode `banana`"), "got: {text}");
    assert!(text.contains("acceptEdits"), "the valid options are listed: {text}");
}

#[test]
fn an_unrecognized_command_is_reported_by_name() {
    assert_eq!(dispatch("/nope", &none()), CommandAction::Unknown("nope".into()));
}

#[test]
fn custom_commands_expand_their_template() {
    let custom = project(
        "review",
        "---\ndescription: Review a file\nargument-hint: <path>\n---\n\nReview $ARGUMENTS carefully.\n",
    );

    assert_eq!(
        dispatch("/review src/auth.rs", &custom),
        CommandAction::Prompt("Review src/auth.rs carefully.".into())
    );

    let listed = all(&custom);
    let review = listed.iter().find(|c| c.name == "review").expect("listed in the palette");
    assert_eq!(review.display(), "/review <path>");
    assert_eq!(review.description, "Review a file");
}

#[test]
fn a_custom_command_can_shadow_a_built_in() {
    let custom = project("compact", "Summarize differently.");
    assert_eq!(
        dispatch("/compact", &custom),
        CommandAction::Prompt("Summarize differently.".into()),
        "an explicit project command wins over the built-in"
    );
}

#[test]
fn positional_placeholders_map_to_words() {
    assert_eq!(expand("compare $1 with $2", "a.rs b.rs"), "compare a.rs with b.rs");
}

#[test]
fn a_template_without_a_placeholder_still_receives_the_arguments() {
    // Otherwise `/review src/a.rs` would silently drop the path.
    assert_eq!(expand("Review this file.", "src/a.rs"), "Review this file.\n\nsrc/a.rs");
    assert_eq!(expand("Review this file.", ""), "Review this file.");
}

#[test]
fn a_command_file_with_no_body_is_ignored() {
    assert!(parse_custom("---\ndescription: x\n---\n\n  \n", "/x/empty.md").is_none());
}

#[test]
fn a_command_file_without_frontmatter_is_all_template() {
    let c = parse_custom("Just do the thing.", "/x/thing.md").unwrap();
    assert_eq!(c.name, "thing");
    assert_eq!(c.template.as_deref(), Some("Just do the thing."));
    assert!(c.description.contains("thing"));
}

#[test]
fn an_unterminated_frontmatter_fence_still_yields_a_usable_command() {
    let c = parse_custom("---\ndescription: oops\nBody text", "/x/a.md").unwrap();
    assert!(c.template.as_deref().unwrap().contains("Body text"));
}

#[test]
fn completion_filters_by_prefix() {
    let names: Vec<String> = complete("/co", &none()).into_iter().map(|c| c.name).collect();
    assert_eq!(names, vec!["compact", "context", "cost"]);

    assert!(complete("/zzz", &none()).is_empty());
    assert!(complete("/", &none()).len() >= builtins().len());
}

#[test]
fn help_lists_every_command_and_the_keybindings() {
    let CommandAction::Show(text) = dispatch("/help", &none()) else { panic!() };
    for command in builtins() {
        assert!(text.contains(&format!("/{}", command.name)), "help omits /{}", command.name);
    }
    assert!(text.contains("Shift+Tab"), "keybindings are documented");
    assert_eq!(text, help_text(&none()));
}

#[test]
fn a_ninth_placeholder_counts_as_one() {
    assert_eq!(expand("only $9", "a b c d e f g h i"), "only i");
    assert_eq!(expand("only $9", "a b"), "only $9");
}

#[test]
fn project_commands_override_those_of_the_user() {
    let user = SourceFile { path: "/home/u/.grok/commands/go.md".into(), text: "mine".into() };
    let own = SourceFile { path: "/repo/.grok/commands/go.md".into(), text: "ours".into() };
    let found = discover_custom(&vec![vec![user], vec![own]]);
    assert_eq!(found.len(), 1);
    assert_eq!(found[0].template.as_deref(), Some("ours"));
    assert_eq!(
        command_dirs(Some("/home/u"), "/repo"),
        ["/home/u/.grok/commands", "/repo/.grok/commands"]
    );
    assert_eq!(memory_path("/repo"), "/repo/GROK.md");
}
