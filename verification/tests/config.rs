use grok_cli::config::{
    discover_memory, layered_dirs, load, memory_candidates, merge, model_info, sessions_dir,
    slugify_path, CliOverrides, ConfigFile, Environment, PermissionMode, PermissionRules,
    DEFAULT_MODEL, FALLBACK_CONTEXT_WINDOW,
};

fn file_with(model: &str, allow: &str) -> ConfigFile {
    ConfigFile {
        model: Some(model.to_string()),
        permissions: Some(PermissionRules {
            allow: vec![allow.to_string()],
            deny: vec![],
            ask: vec![],
        }),
        ..ConfigFile::default()
    }
}

fn no_environment() -> Environment {
    Environment { api_key: None, model: None, base_url: None }
}

fn no_overrides() -> CliOverrides {
    CliOverrides { model: None, base_url: None, permission_mode: None, max_tokens: None }
}

#[test]
fn later_layers_override_scalars_but_concatenate_collections() {
    let base = merge(file_with("grok-3", "Read(**)"), file_with("grok-4", "Bash(ls:*)"));
    assert_eq!(base.model.as_deref(), Some("grok-4"), "scalars are overridden");
    let allow = &base.permissions.as_ref().unwrap().allow;
    assert_eq!(allow, &["Read(**)", "Bash(ls:*)"], "rules accumulate, never silently drop");
}

#[test]
fn an_unset_field_in_a_later_layer_does_not_clear_an_earlier_one() {
    let base = ConfigFile { model: Some("grok-4".into()), ..Default::default() };
    let base = merge(
        base,
        ConfigFile { temperature: Some(0.2f32.to_bits()), ..Default::default() },
    );
    assert_eq!(base.model.as_deref(), Some("grok-4"));
    assert_eq!(base.temperature, Some(0.2f32.to_bits()));
}

#[test]
fn unknown_models_get_a_conservative_context_window() {
    assert_eq!(model_info("grok-99-future").context_window, FALLBACK_CONTEXT_WINDOW);
    assert_eq!(model_info(DEFAULT_MODEL).context_window, 2_000_000);
}

#[test]
fn permission_modes_round_trip_through_their_string_form() {
    for mode in PermissionMode::all() {
        assert_eq!(PermissionMode::parse(mode.as_str()), Some(mode));
    }
    assert_eq!(PermissionMode::parse("yolo"), Some(PermissionMode::BypassPermissions));
    assert_eq!(PermissionMode::parse("nonsense"), None);
}

#[test]
fn slugify_produces_a_filesystem_safe_bucket_name() {
    let slug = slugify_path("/Users/dev/projects/grok-cli");
    assert_eq!(slug, "Users-dev-projects-grok-cli");
    assert!(!slug.starts_with('-'), "leading separator is trimmed");
}

#[test]
fn defaults_fill_what_no_layer_sets() {
    let c = load("/repo", ConfigFile::default(), &no_environment(), &no_overrides());
    assert_eq!(c.model, DEFAULT_MODEL);
    assert_eq!(c.base_url, "https://api.x.ai/v1");
    assert_eq!(c.api_key, "");
    assert_eq!(c.max_tool_iterations, 60);
    assert_eq!(c.permission_mode, PermissionMode::Default);
    assert_eq!(c.compact_at(), 1_700_000, "85 percent of the window");
}

#[test]
fn the_command_line_wins_over_the_environment_and_that_over_the_files() {
    let env = Environment {
        api_key: Some("k".into()),
        model: Some("from-env".into()),
        base_url: Some("http://env".into()),
    };
    let overrides = CliOverrides {
        model: Some("from-flag".into()),
        base_url: None,
        permission_mode: Some(PermissionMode::Plan),
        max_tokens: Some(7),
    };
    let c = load("/repo", file_with("from-file", "x"), &env, &overrides);
    assert_eq!(c.model, "from-flag");
    assert_eq!(c.base_url, "http://env");
    assert_eq!(c.permission_mode, PermissionMode::Plan);
    assert_eq!(c.max_tokens, Some(7));
    assert_eq!(c.api_key, "k");
}

#[test]
fn the_compaction_threshold_stays_between_a_tenth_and_almost_all() {
    let at = |threshold: f32| {
        let file = ConfigFile {
            model: Some("grok-4".into()),
            auto_compact_threshold: Some(threshold.to_bits()),
            ..ConfigFile::default()
        };
        load("/repo", file, &no_environment(), &no_overrides()).compact_at()
    };
    for threshold in [-1.0f32, 0.0, 0.1, 0.25, 0.333, 0.5, 0.85, 0.98, 7.0, f32::INFINITY, f32::NAN] {
        let expected = (256_000f64 * f64::from(threshold.clamp(0.1, 0.98))) as u64;
        assert_eq!(at(threshold), expected, "threshold {threshold}");
    }
    assert_eq!(at(0.5), 128_000);
}

#[test]
fn sessions_and_layers_live_below_the_home_directory_and_the_project() {
    assert_eq!(
        sessions_dir(Some("/home/u"), "/repo").as_deref(),
        Some("/home/u/.grok/projects/repo")
    );
    assert_eq!(sessions_dir(None, "/repo"), None);
    assert_eq!(
        layered_dirs(Some("/home/u"), "/repo", "agents"),
        ["/home/u/.grok/agents", "/repo/.grok/agents"]
    );
}

#[test]
fn blank_memory_files_are_skipped() {
    let paths = memory_candidates("/repo", Some("/home/u"));
    let contents: Vec<Option<String>> = paths
        .iter()
        .map(|p| if p.starts_with("/repo") { Some("rules".to_string()) } else { Some("  \n".to_string()) })
        .collect();
    let found = discover_memory(&paths, &contents);
    assert!(!found.is_empty());
    assert!(found.iter().all(|m| m.path.starts_with("/repo")), "got {found:?}");
}
