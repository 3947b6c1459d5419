use grok_cli::api::types::ToolCall;
use grok_cli::json::Json;
use grok_cli::tools::edit::{
    find_ignoring_indentation, plan_edit, reindent, strip_line_number_prefixes, EditError,
    Recovery,
};
use grok_cli::tools::fs::{
    locate, probe_paths, resolve_in_workspace, DirEntry, EditFile, ListFiles, Probe, ReadFile,
    WriteFile, WriteJob,
};
use grok_cli::tools::{FileStamp, ToolContext, ToolOutcome};

fn json(text: &str) -> Json {
    ToolCall::new("c", "t", text).parsed_arguments().unwrap()
}

/// An edit of a file of `/repo` that was last changed at 5: its new text, and
/// what is reported.
fn edit_in(ctx: &ToolContext, file: &str, args: &str) -> (String, ToolOutcome) {
    let tried = EditFile.request(&json(args)).and_then(|request| {
        let probes = probes("/repo", &request.path, 0);
        let path = locate("/repo", &request.path, &probes)?;
        let now = Some(FileStamp { modified: Some(5) });
        let job = EditFile.permit(ctx, request, &probes, &path, now)?;
        let plan = EditFile.apply(&job, file)?;
        let out = EditFile.run("/repo", &job, file, &plan);
        Ok((plan.updated, out))
    });
    tried.unwrap_or_else(|out| (file.to_string(), out))
}

/// An edit of a file that was read.
fn edit(file: &str, args: &str) -> (String, ToolOutcome) {
    let mut ctx = ToolContext::new("/repo");
    ctx.mark_read("/repo/a.rs", Some(5));
    ctx.mark_read("/repo/a.txt", Some(5));
    edit_in(&ctx, file, args)
}

/// A write in `/repo`, where the last `missing` names of the path do not exist.
fn write(ctx: &ToolContext, args: &str, missing: usize) -> Result<WriteJob, ToolOutcome> {
    let (raw, content) = WriteFile.request(&json(args))?;
    let probes = probes("/repo", &raw, missing);
    let path = locate("/repo", &raw, &probes)?;
    let now = (missing == 0).then_some(FileStamp { modified: Some(5) });
    WriteFile.permit(ctx, &raw, content, &probes, &path, now)
}

/// What the disk says where nothing is a link and everything above the last
/// `missing` names exists.
fn probes(workspace: &str, path: &str, missing: usize) -> Vec<Probe> {
    probe_paths(workspace, path)
        .into_iter()
        .enumerate()
        .map(|(i, p)| if i < missing { Probe::Missing } else { Probe::Found(Some(p)) })
        .collect()
}

#[test]
fn reads_number_lines_and_record_the_read() {
    let args = json(r#"{"path": "a.rs"}"#);
    let out = ReadFile.run(&args, "/repo", "/repo/a.rs", b"fn main() {}\nlet x = 1;\n");
    assert!(!out.is_error);
    assert!(out.content.contains("     1\u{2502}fn main() {}"), "got: {}", out.content);
    assert_eq!(out.display.summary.as_deref(), Some("2 lines"));

    let mut ctx = ToolContext::new("/repo");
    ctx.mark_read("/repo/a.rs", Some(5));
    assert!(
        ctx.staleness_error("a.rs", "/repo/a.rs", Some(FileStamp { modified: Some(5) })).is_none(),
        "reading must register the freshness stamp"
    );
}

#[test]
fn reads_page_with_offset_and_limit() {
    let body: String = (1..=10).map(|i| format!("line{i}\n")).collect();
    let args = json(r#"{"path": "a.txt", "offset": 3, "limit": 2}"#);
    let out = ReadFile.run(&args, "/repo", "/repo/a.txt", body.as_bytes());
    assert!(out.content.contains("     3\u{2502}line3"));
    assert!(out.content.contains("     4\u{2502}line4"));
    assert!(!out.content.contains("line5"));
    assert!(out.content.contains("offset=5"), "must tell the model how to continue");
}

#[test]
fn path_escapes_are_refused_by_every_path_taking_tool() {
    let read = ReadFile.target(&json(r#"{"path": "../../etc/passwd"}"#)).unwrap();
    let list = ListFiles.target(&json(r#"{"path": "../.."}"#));
    let ctx = ToolContext::new("/repo");
    let edit = r#"{"path": "/etc/passwd", "old_string": "a", "new_string": "b"}"#;
    for out in [
        locate("/repo", &read, &probes("/repo", &read, 0)).unwrap_err(),
        write(&ctx, r#"{"path": "../evil.txt", "content": "x"}"#, 1).unwrap_err(),
        locate("/repo", &list, &probes("/repo", &list, 0)).unwrap_err(),
        edit_in(&ctx, "a\n", edit).1,
    ] {
        assert!(out.is_error, "escape must be refused");
        assert!(out.content.contains("outside the workspace"), "got: {}", out.content);
    }
}

#[test]
fn a_link_out_of_the_workspace_is_refused() {
    let escape = |p: &str, target: &str| {
        let mut list = probes("/repo", p, 0);
        list[0] = Probe::Found(Some(target.to_string()));
        resolve_in_workspace("/repo", p, &list)
    };
    assert!(escape("link.txt", "/etc/passwd").unwrap_err().contains("outside the workspace"));
    assert_eq!(escape("link.txt", "/repo/real.txt").unwrap(), "/repo/real.txt");
}

#[test]
fn a_linked_directory_is_followed_for_new_files() {
    let paths = probe_paths("/repo", "sub/new.txt");
    assert_eq!(&paths[..3], ["/repo/sub/new.txt", "/repo/sub", "/repo"]);
    let outside: Vec<Probe> = paths
        .iter()
        .enumerate()
        .map(|(i, p)| match i {
            0 => Probe::Missing,
            1 => Probe::Found(Some("/elsewhere".into())),
            _ => Probe::Found(Some(p.clone())),
        })
        .collect();
    assert!(resolve_in_workspace("/repo", "sub/new.txt", &outside).is_err());
}

#[test]
fn creating_a_new_file_in_a_new_subdirectory_still_works() {
    let ctx = ToolContext::new("/repo");
    let job = write(&ctx, r#"{"path": "a/b/c.txt", "content": "hello\n"}"#, 3).unwrap();
    assert_eq!((job.path(), job.content()), ("/repo/a/b/c.txt", "hello\n"));
    let out = WriteFile.run("/repo", &job, false, "");
    assert!(!out.is_error, "got: {}", out.content);
    assert_eq!(out.content, "Created a/b/c.txt (1 lines)");
}

#[test]
fn plain_dot_dot_escapes_are_still_refused() {
    assert!(resolve_in_workspace("/repo", "../secret.txt", &vec![]).is_err());
    assert!(probe_paths("/repo", "../secret.txt").is_empty(), "and nothing is probed");
}

#[test]
fn binary_files_are_refused_rather_than_mangled() {
    let args = json(r#"{"path": "bin"}"#);
    let out = ReadFile.run(&args, "/repo", "/repo/bin", &[0x7f, b'E', b'L', b'F', 0, 0]);
    assert!(out.is_error);
    assert!(out.content.contains("binary"));
}

#[test]
fn an_offset_beyond_the_end_is_an_error() {
    let args = json(r#"{"path": "a", "offset": 9}"#);
    let out = ReadFile.run(&args, "/repo", "/repo/a", b"one\n");
    assert!(out.is_error, "got: {}", out.content);
    assert!(out.content.contains("offset 9"));
}

#[test]
fn writing_says_what_it_did() {
    let (path, content) =
        WriteFile.request(&json(r#"{"path": "a/b/c.txt", "content": "hi\n"}"#)).unwrap();
    assert_eq!((path.as_str(), content.as_str()), ("a/b/c.txt", "hi\n"));
    let mut ctx = ToolContext::new("/repo");
    let job = write(&ctx, r#"{"path": "a/b/c.txt", "content": "hi\n"}"#, 3).unwrap();
    assert_eq!(WriteFile.run("/repo", &job, false, "").content, "Created a/b/c.txt (1 lines)");
    ctx.mark_read("/repo/a/b/c.txt", Some(5));
    let job = write(&ctx, r#"{"path": "a/b/c.txt", "content": "ho\n"}"#, 0).unwrap();
    let out = WriteFile.run("/repo", &job, true, "hi\n");
    assert_eq!(out.content, "Overwrote a/b/c.txt (1 lines)");
    assert_eq!(out.display.diff_stats, Some((1, 1)));
}

#[test]
fn overwriting_requires_a_prior_read() {
    let mut ctx = ToolContext::new("/repo");
    let args = r#"{"path": "a.rs", "content": "x"}"#;
    let out = write(&ctx, args, 0).unwrap_err();
    assert!(out.is_error && out.content.contains("has not been read"), "got: {}", out.content);
    ctx.mark_read("/repo/a.rs", Some(4));
    let out = write(&ctx, args, 0).unwrap_err();
    assert!(out.content.contains("changed on disk"), "got: {}", out.content);
    ctx.mark_read("/repo/a.rs", Some(5));
    assert_eq!(write(&ctx, args, 0).unwrap().path(), "/repo/a.rs");
}

#[test]
fn editing_requires_a_prior_read() {
    let ctx = ToolContext::new("/repo");
    let args = r#"{"path": "a.rs", "old_string": "1", "new_string": "2"}"#;
    let (file, out) = edit_in(&ctx, "let x = 1;\n", args);
    assert!(out.is_error);
    assert!(out.content.contains("has not been read"), "got: {}", out.content);
    assert_eq!(file, "let x = 1;\n");
}

#[test]
fn an_ambiguous_edit_is_refused_instead_of_guessing() {
    let (file, out) = edit("x\nx\n", r#"{"path": "a.rs", "old_string": "x", "new_string": "y"}"#);
    assert!(out.is_error);
    assert!(out.content.contains("appears 2 times"), "got: {}", out.content);
    assert_eq!(file, "x\nx\n");

    // replace_all makes the intent explicit and is accepted.
    let (file, out) = edit(
        "x\nx\n",
        r#"{"path": "a.rs", "old_string": "x", "new_string": "y", "replace_all": true}"#,
    );
    assert!(!out.is_error, "got: {}", out.content);
    assert_eq!(file, "y\ny\n");
}

#[test]
fn an_edit_pasted_back_with_line_numbers_still_applies() {
    let (file, out) = edit(
        "fn f() {\n    now < expiry\n}\n",
        r#"{
            "path": "a.rs",
            "old_string": "     2\t    now < expiry",
            "new_string": "    now <= expiry"
        }"#,
    );

    assert!(!out.is_error, "got: {}", out.content);
    assert_eq!(
        file, "fn f() {\n    now <= expiry\n}\n",
        "the file must not gain a stray tab"
    );
    assert!(out.content.contains("match the file exactly"), "the model is told: {}", out.content);
}

#[test]
fn an_edit_with_hallucinated_indentation_still_applies_correctly() {
    let (file, out) = edit(
        "fn f() {\n    now < expiry\n}\n",
        r#"{
            "path": "a.rs",
            "old_string": "\tnow < expiry",
            "new_string": "\tnow <= expiry"
        }"#,
    );

    assert!(!out.is_error, "got: {}", out.content);
    assert_eq!(
        file, "fn f() {\n    now <= expiry\n}\n",
        "the file keeps its real indentation; no phantom tab is introduced"
    );
}

#[test]
fn a_whitespace_recovery_is_refused_when_it_would_be_ambiguous() {
    let (file, out) = edit(
        "  x = 1\n    x = 1\n",
        r#"{"path": "a.rs", "old_string": "\tx = 1", "new_string": "\tx = 2"}"#,
    );

    assert!(out.is_error, "two equally good candidates must not be guessed between");
    assert_eq!(file, "  x = 1\n    x = 1\n", "the file is untouched");
}

#[test]
fn prefix_stripping_only_fires_when_every_line_is_numbered() {
    assert_eq!(
        strip_line_number_prefixes("     1│fn f() {\n     2│    x\n").as_deref(),
        Some("fn f() {\n    x\n")
    );
    // A tab separator is accepted too, for models trained on `cat -n`.
    assert_eq!(strip_line_number_prefixes("  1\tone").as_deref(), Some("one"));
    // Ordinary code that merely starts with a digit must be left alone.
    assert!(strip_line_number_prefixes("42\nlet x = 1;").is_none());
    assert!(strip_line_number_prefixes("     1│numbered\nnot numbered").is_none());
    assert!(strip_line_number_prefixes("no numbers here").is_none());
}

#[test]
fn indentation_insensitive_search_requires_a_unique_match() {
    let file = "fn a() {\n    work()\n}\nfn b() {\n    other()\n}\n";
    let (from, to) = find_ignoring_indentation(file, "\twork()").expect("unique match");
    assert_eq!(&file[from..to], "    work()");

    // Two candidates: refuse rather than pick.
    let ambiguous = "  same\n    same\n";
    assert!(find_ignoring_indentation(ambiguous, "same").is_none());

    // No candidate at all.
    assert!(find_ignoring_indentation(file, "missing()").is_none());
    // Blank needles never match.
    assert!(find_ignoring_indentation(file, "   \n  ").is_none());
}

#[test]
fn reindenting_moves_a_block_onto_the_files_real_indentation() {
    assert_eq!(reindent("\tone\n\t\ttwo", "    "), "    one\n    \ttwo");
    assert_eq!(reindent("no indent", "  "), "  no indent");
    // Blank lines stay blank rather than gaining trailing whitespace.
    assert_eq!(reindent("\ta\n\n\tb", "  "), "  a\n\n  b");
}

#[test]
fn code_that_looks_numbered_is_not_mangled() {
    // An exact match must win before any stripping is attempted.
    let (file, out) = edit(
        "1\tone\n2\ttwo\n",
        r#"{"path": "a.txt", "old_string": "1\tone", "new_string": "1\tONE"}"#,
    );
    assert!(!out.is_error, "got: {}", out.content);
    assert_eq!(file, "1\tONE\n2\ttwo\n");
    assert!(!out.content.contains("omit them"), "no recovery should have been needed");
}

#[test]
fn a_missing_edit_target_reports_why() {
    let (_, out) =
        edit("hello\n", r#"{"path": "a.rs", "old_string": "goodbye", "new_string": "x"}"#);
    assert!(out.is_error);
    assert!(out.content.contains("not found"), "got: {}", out.content);
}

#[test]
fn edits_report_diff_stats_for_the_ui() {
    let (_, out) =
        edit("a\nb\nc\n", r#"{"path": "a.rs", "old_string": "b", "new_string": "B"}"#);
    assert_eq!(out.display.diff_stats, Some((1, 1)));
    assert!(!out.display.diff.is_empty(), "the UI needs the rendered diff");
}

#[test]
fn an_edit_that_changes_nothing_is_refused() {
    let (_, out) = edit("a\n", r#"{"path": "a.rs", "old_string": "a", "new_string": "a"}"#);
    assert!(out.is_error);
    assert!(out.content.contains("identical"));
}

#[test]
fn plans_say_how_they_matched() {
    let exact = plan_edit("a b", "a", "c", false).unwrap();
    assert_eq!((exact.updated.as_str(), exact.matches), ("c b", 1));
    assert!(exact.recovery.is_none());
    let loose = plan_edit("    x\n", "\tx", "\ty", false).unwrap();
    assert_eq!(loose.recovery, Some(Recovery::Indentation));
    assert_eq!(plan_edit("x x", "x", "y", false).unwrap_err(), EditError::Ambiguous(2));
    assert_eq!(plan_edit("x x", "z", "y", false).unwrap_err(), EditError::NotFound);
}

#[test]
fn missing_required_arguments_produce_actionable_errors() {
    let out = EditFile.request(&json("{}")).unwrap_err();
    assert!(out.is_error);
    assert!(out.content.contains("missing required string argument `path`"));
    let out = WriteFile.request(&json(r#"{"path": 42}"#)).unwrap_err();
    assert!(out.content.contains("missing required string argument `path`"));
}

#[test]
fn listing_puts_directories_first() {
    let entries = vec![
        DirEntry { name: "afile".into(), is_dir: false },
        DirEntry { name: "zdir".into(), is_dir: true },
    ];
    assert_eq!(ListFiles.target(&json("{}")), ".");
    let out = ListFiles.run("/repo", "/repo", &entries);
    let lines: Vec<&str> = out.content.lines().collect();
    assert_eq!(lines[0], "zdir/", "directories sort before files");
    assert_eq!(lines[1], "afile");
}

#[test]
fn recoveries_need_a_unique_match() {
    // Even where every occurrence is to be replaced.
    let numbered = "     1│x = 1";
    assert_eq!(
        plan_edit("x = 1\nx = 1\n", numbered, "x = 2", true).unwrap_err(),
        EditError::Ambiguous(2)
    );
    let sole = plan_edit("x = 1\n", numbered, "x = 2", true).unwrap();
    assert_eq!((sole.updated.as_str(), sole.matches), ("x = 2\n", 1));
    assert_eq!(sole.recovery, Some(Recovery::Prefixes));
    let given = plan_edit("x = 1\nx = 1\n", "x = 1", "x = 2", true).unwrap();
    assert_eq!((given.updated.as_str(), given.matches), ("x = 2\nx = 2\n", 2));
}

#[test]
fn only_leading_white_space_is_ignored() {
    assert!(find_ignoring_indentation("    x\n", "\tx").is_some());
    assert!(find_ignoring_indentation("    x  \n", "\tx").is_none());
    assert_eq!(plan_edit("    x  \n", "\tx", "\ty", false).unwrap_err(), EditError::NotFound);
}
