use grok_cli::api::types::ToolCall;
use grok_cli::json::Json;
use grok_cli::matching::{
    glob_is_match, glob_is_valid, glob_match_each, regex_is_match, regex_match_each,
};
use grok_cli::tools::search::{Glob, Grep, Search, WalkEntry};
use grok_cli::tools::ToolOutcome;

fn json(text: &str) -> Json {
    ToolCall::new("c", "t", text).parsed_arguments().unwrap()
}

fn entry(path: &str, modified: i128) -> Option<WalkEntry> {
    Some(WalkEntry { path: path.to_string(), is_dir: false, modified: Some(modified) })
}

fn grep(args: &str, files: &[(&str, &str)]) -> ToolOutcome {
    let request = match Grep.request(&json(args)) {
        Ok(r) => r,
        Err(out) => return out,
    };
    if let Some(out) = Grep.check(&request) {
        return out;
    }
    let mut search = Search::new("/repo", request);
    for (path, text) in files {
        if !search.next() {
            break;
        }
        if search.wants(path) {
            search.add_file(path, text.as_bytes());
        }
    }
    search.finish()
}

#[test]
fn glob_sorts_newest_first() {
    let out = Glob.run(
        "/repo",
        "*.rs",
        &vec![entry("/repo/old.rs", 1), None, entry("/repo/new.rs", 2), entry("/repo/a.txt", 3)],
    );
    let new_at = out.content.find("new.rs").expect("new.rs present");
    let old_at = out.content.find("old.rs").expect("old.rs present");
    assert!(new_at < old_at, "newest first");
    assert!(!out.content.contains("a.txt"));
}

#[test]
fn an_invalid_glob_is_reported() {
    let (pattern, path, hidden) =
        Glob.request(&json(r#"{"pattern": "a[", "hidden": true}"#)).unwrap();
    assert_eq!((pattern.as_str(), path.as_str(), hidden), ("a[", ".", true));
    assert!(Glob.check(&pattern).unwrap().is_error);
    assert!(Glob.check("src/**/*.rs").is_none());
    assert!(Glob.request(&json("{}")).unwrap_err().is_error);
}

#[test]
fn grep_reports_path_line_and_text() {
    let out = grep(
        r#"{"pattern": "fn (alpha|beta)"}"#,
        &[("/repo/a.rs", "fn alpha() {}\nfn beta() {}\n")],
    );
    assert!(out.content.contains("a.rs:1:fn alpha() {}"), "got: {}", out.content);
    assert!(out.content.contains("a.rs:2:fn beta() {}"));
    assert_eq!(out.display.summary.as_deref(), Some("2 matches in 1 file"));
}

#[test]
fn grep_modes_change_the_shape_of_the_output() {
    let files = [("/repo/a.rs", "hit\nhit\n")];
    let names = grep(r#"{"pattern": "hit", "output_mode": "files_with_matches"}"#, &files);
    assert_eq!(names.content.trim(), "a.rs");

    let counts = grep(r#"{"pattern": "hit", "output_mode": "count"}"#, &files);
    assert_eq!(counts.content.trim(), "a.rs: 2");
}

#[test]
fn an_invalid_regex_is_reported_not_panicked_on() {
    let out = grep(r#"{"pattern": "("}"#, &[]);
    assert!(out.is_error);
    assert!(out.content.contains("invalid regex"), "got: {}", out.content);
}

#[test]
fn grep_can_ignore_case_and_narrow_by_name() {
    let files = [("/repo/a.rs", "HIT\n"), ("/repo/b.txt", "hit\n")];
    let out = grep(r#"{"pattern": "hit", "case_insensitive": true, "glob": "*.rs"}"#, &files);
    assert!(out.content.contains("a.rs:1:HIT"), "got: {}", out.content);
    assert!(!out.content.contains("b.txt"));
    assert!(grep(r#"{"pattern": "nothing"}"#, &files).content.contains("No matches"));
}

#[test]
fn grep_shows_context_and_passes_binaries_over() {
    let files = [("/repo/a.rs", "one\nhit\ntwo\nthree\n"), ("/repo/bin", "hit\0")];
    let out = grep(r#"{"pattern": "hit", "context": 1}"#, &files);
    assert!(out.content.contains("one") && out.content.contains("two"), "got: {}", out.content);
    assert!(!out.content.contains("three"));
    assert!(!out.content.contains("bin"));
}

#[test]
fn what_is_no_pattern_matches_nothing() {
    let texts = vec!["a.rs".to_string(), "[".to_string()];
    assert!(!glob_is_valid("[") && !glob_is_match("[", "["));
    assert_eq!(glob_match_each("[", &texts), [false, false]);
    assert_eq!(glob_match_each("*.rs", &texts), [true, false]);
    assert!(!regex_is_match("(", false, "("));
    assert_eq!(regex_match_each("(", false, &texts), [false, false]);
    assert_eq!(regex_match_each("RS$", true, &texts), [true, false]);
    assert_eq!(regex_match_each("RS$", false, &texts), [false, false]);
}
