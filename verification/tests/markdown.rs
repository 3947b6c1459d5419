use grok_cli::tui::markdown::{render, to_plain, Line, Theme};

fn line_is_blank(line: &Line) -> bool {
    line.spans.iter().all(|s| s.content.trim().is_empty())
}

fn plain(source: &str) -> String {
    to_plain(&render(source, &Theme::dark()))
}

#[test]
fn plain_prose_survives_unchanged() {
    assert_eq!(plain("Hello there."), "Hello there.");
}

#[test]
fn emphasis_markers_are_consumed_not_printed() {
    let out = plain("This is **bold** and *italic*.");
    assert_eq!(out, "This is bold and italic.");
    assert!(!out.contains('*'), "raw markdown would look broken in a terminal");
}

#[test]
fn bold_text_actually_carries_the_bold_modifier() {
    let lines = render("**loud**", &Theme::dark());
    let bold = lines[0].spans.iter().find(|s| s.content.contains("loud")).unwrap();
    assert!(bold.style.bold);
}

#[test]
fn headings_are_styled_and_their_hashes_removed() {
    let lines = render("# Title", &Theme::dark());
    assert_eq!(to_plain(&lines), "Title");
    let span = &lines[0].spans[0];
    assert!(span.style.bold);
    assert_eq!(span.style.fg, Some(Theme::dark().accent));
}

#[test]
fn bullet_lists_get_markers() {
    let out = plain("- one\n- two");
    assert_eq!(out, "• one\n• two");
}

#[test]
fn ordered_lists_number_themselves() {
    assert_eq!(plain("1. first\n2. second"), "1. first\n2. second");
}

#[test]
fn inline_code_is_coloured_and_keeps_its_content() {
    let lines = render("call `foo()` now", &Theme::dark());
    assert_eq!(to_plain(&lines), "call foo() now");
    let code = lines[0].spans.iter().find(|s| s.content == "foo()").unwrap();
    assert_eq!(code.style.fg, Some(Theme::dark().code));
}

#[test]
fn fenced_code_blocks_keep_their_lines_and_label_the_language() {
    let out = plain("```rust\nfn main() {}\nlet x = 1;\n```");
    assert!(out.contains("rust"), "the language is labelled: {out}");
    assert!(out.contains("fn main() {}"));
    assert!(out.contains("let x = 1;"));
}

#[test]
fn an_unterminated_code_fence_still_renders_its_content() {
    // This is the normal case while a response is streaming.
    let out = plain("Here you go:\n\n```rust\nfn main() {}");
    assert!(out.contains("fn main() {}"), "streaming must not swallow the tail: {out}");
}

#[test]
fn dangling_emphasis_does_not_panic_or_eat_the_rest() {
    // A half-streamed `**bold` arrives constantly.
    let out = plain("Some **partially typed");
    assert!(out.contains("partially typed"), "got: {out}");
}

#[test]
fn block_quotes_are_marked_in_the_gutter() {
    let out = plain("> quoted text");
    assert!(out.contains("quoted text"));
    assert!(out.contains('│'), "the quote gutter is visible: {out}");
}

#[test]
fn consecutive_blank_lines_collapse() {
    let out = plain("one\n\n\n\ntwo");
    assert_eq!(out, "one\n\ntwo", "runs of blank lines waste vertical space");
}

#[test]
fn trailing_blank_lines_are_trimmed() {
    let lines = render("text\n\n\n", &Theme::dark());
    assert!(!lines.last().is_some_and(line_is_blank));
}

#[test]
fn raw_html_is_dropped_rather_than_shown() {
    let out = plain("before <div class=\"x\"> after");
    assert!(!out.contains("<div"), "angle brackets in a terminal are noise: {out}");
    assert!(out.contains("before"));
}

#[test]
fn an_empty_document_renders_to_nothing() {
    assert!(render("", &Theme::dark()).is_empty());
    assert!(render("   \n  \n", &Theme::dark()).is_empty());
}

#[test]
fn task_list_markers_render_as_checkboxes() {
    let out = plain("- [x] done\n- [ ] todo");
    assert!(out.contains("[x] done"), "got: {out}");
    assert!(out.contains("[ ] todo"), "got: {out}");
}

#[test]
fn themes_resolve_by_name_and_default_to_dark() {
    assert_eq!(Theme::named("light").accent, Theme::light().accent);
    assert_eq!(Theme::named("dark").accent, Theme::dark().accent);
    assert_eq!(Theme::named("nonsense").accent, Theme::dark().accent);
}

#[test]
fn a_long_realistic_answer_renders_without_panicking() {
    let source = "# Fix\n\nThe bug is in `src/auth.rs:42`.\n\n\
                  1. Read the file\n2. Change `<` to `<=`\n\n\
                  ```rust\nif now <= expiry { ok() }\n```\n\n\
                  > Note: this changes boundary behaviour.\n\n\
                  - [x] fixed\n- [ ] tested\n\n---\n\nDone.";
    let out = plain(source);
    assert!(out.contains("Fix"));
    assert!(out.contains("src/auth.rs:42"));
    assert!(out.contains("if now <= expiry"));
    assert!(out.contains("Done."));
}

#[test]
fn nested_lists_are_indented_below_their_parent() {
    assert_eq!(plain("- one\n  - two\n- three"), "• one\n  • two\n• three");
}

#[test]
fn styles_do_not_leak_out_of_their_element() {
    let lines = render("**loud** quiet", &Theme::dark());
    let quiet = lines[0].spans.iter().find(|s| s.content.contains("quiet")).unwrap();
    assert!(!quiet.style.bold);
    let struck = render("~~gone~~", &Theme::dark());
    assert!(struck[0].spans.iter().any(|s| s.style.crossed_out));
}
