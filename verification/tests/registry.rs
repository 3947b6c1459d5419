use std::sync::Arc;

use grok_cli::json::Json;
use grok_cli::tools::{FileStamp, ToolContext, ToolInfo, ToolKind, ToolRegistry};

fn dummy(name: &str, kind: ToolKind) -> Arc<ToolInfo> {
    Arc::new(ToolInfo::new(name, "dummy", Json::Object(vec![]), kind))
}

fn ctx() -> ToolContext {
    ToolContext::new("/repo")
}

#[test]
fn builtins_have_unique_names() {
    let r = ToolRegistry::with_builtins();
    let mut names = r.names();
    let before = names.len();
    names.sort_unstable();
    names.dedup();
    assert_eq!(names.len(), before, "duplicate tool names would shadow each other silently");
    assert!(before >= 10, "expected the full built-in suite, got {before}");
}

#[test]
fn re_registering_a_name_replaces_rather_than_duplicates() {
    let mut r = ToolRegistry::new();
    r.register(dummy("x", ToolKind::Read));
    r.register(dummy("x", ToolKind::Execute));
    assert_eq!(r.len(), 1);
    assert_eq!(r.get("x").unwrap().kind, ToolKind::Execute, "the later registration wins");
}

#[test]
fn read_only_view_drops_every_mutating_tool() {
    let r = ToolRegistry::with_builtins().read_only();
    assert!(r.get("bash").is_none(), "plan mode must not expose command execution");
    assert!(r.get("write_file").is_none());
    assert!(r.get("edit_file").is_none());
    assert!(r.get("read_file").is_some(), "reads stay available in plan mode");
    assert!(r.get("grep").is_some());
}

#[test]
fn subset_ignores_unknown_names() {
    let r = ToolRegistry::with_builtins()
        .subset(&vec!["read_file".into(), "not_a_real_tool".into()]);
    assert_eq!(r.names(), vec!["read_file"]);
}

#[test]
fn only_reads_are_declared_parallel_safe() {
    let r = ToolRegistry::with_builtins();
    assert!(r.get("read_file").unwrap().parallel_safe());
    assert!(!r.get("edit_file").unwrap().parallel_safe(), "concurrent edits could interleave");
    assert!(!r.get("bash").unwrap().parallel_safe());
}

#[test]
fn editing_an_unread_file_is_refused() {
    let err = ctx()
        .staleness_error("a.txt", "/repo/a.txt", Some(FileStamp { modified: Some(1) }))
        .expect("unread file must be refused");
    assert!(err.contains("has not been read"), "got: {err}");
}

#[test]
fn editing_a_file_that_changed_since_the_read_is_refused() {
    let mut ctx = ctx();
    ctx.mark_read("/repo/a.txt", Some(1_000));
    let stamp = |t: i128| Some(FileStamp { modified: Some(t) });
    assert!(
        ctx.staleness_error("a.txt", "/repo/a.txt", stamp(1_000)).is_none(),
        "a fresh read permits the edit"
    );
    let err = ctx
        .staleness_error("a.txt", "/repo/a.txt", stamp(2_000_001_000))
        .expect("stale file must be refused");
    assert!(err.contains("changed on disk"), "got: {err}");
}

#[test]
fn creating_a_new_file_needs_no_prior_read() {
    assert!(ctx().staleness_error("new.txt", "/repo/new.txt", None).is_none());
}

#[test]
fn every_tool_advertises_a_well_formed_schema() {
    let registry = ToolRegistry::with_builtins();
    let names = registry.names();
    let specs = registry.specs();
    assert_eq!(names.len(), specs.len());
    for (name, spec) in names.iter().zip(&specs) {
        assert_eq!(spec.kind, "function", "{name}: wrong spec kind");
        assert_eq!(&spec.function.name, name, "{name}: spec name disagrees with tool name");
        assert!(
            spec.function.description.len() > 20,
            "{name}: description is too short to guide a model"
        );
        let parameters = &spec.function.parameters;
        assert_eq!(parameters.get_str("type").as_deref(), Some("object"), "{name}");
        let Some(Json::Object(properties)) = parameters.get("properties") else {
            panic!("{name} has no properties");
        };
        for (key, property) in properties {
            assert!(property.get_str("type").is_some(), "{name}.{key} has no type");
            assert!(
                property.get_str("description").is_some_and(|d| !d.is_empty()),
                "{name}.{key} has no description"
            );
        }
        let Some(Json::Array(required)) = parameters.get("required") else {
            panic!("{name} does not say what is required");
        };
        for entry in required {
            let Json::Str(key) = entry else { panic!("{name}: {entry:?}") };
            assert!(
                properties.iter().any(|(k, _)| k == key),
                "{name} requires {key}, which it does not declare"
            );
        }
    }
}

#[test]
fn tool_classifications_are_consistent_with_what_the_tools_do() {
    let registry = ToolRegistry::with_builtins();
    let expected = [
        ("read_file", ToolKind::Read),
        ("list_files", ToolKind::Read),
        ("glob", ToolKind::Read),
        ("grep", ToolKind::Read),
        ("bash_output", ToolKind::Read),
        ("write_file", ToolKind::Edit),
        ("edit_file", ToolKind::Edit),
        ("bash", ToolKind::Execute),
        ("kill_shell", ToolKind::Execute),
        ("web_fetch", ToolKind::Network),
        ("todo_write", ToolKind::Meta),
    ];
    for (name, kind) in expected {
        assert_eq!(
            registry.get(name).unwrap_or_else(|| panic!("{name} is missing")).kind,
            kind,
            "{name} is classified wrongly, which changes when it prompts"
        );
    }
    for name in registry.names() {
        assert!(expected.iter().any(|(n, _)| *n == name), "{name} has no expected class");
    }
}

#[test]
fn removing_a_tool_leaves_the_others() {
    let r = ToolRegistry::with_builtins();
    let fewer = r.without("bash");
    assert_eq!(fewer.len(), r.len() - 1);
    assert!(fewer.get("bash").is_none());
    assert!(!ToolKind::Read.mutates());
    assert!(ToolKind::Execute.mutates());
}
