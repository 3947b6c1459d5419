use grok_cli::agent::PermissionRequest;
use grok_cli::commands::complete;
use grok_cli::config::{PermissionMode, DEFAULT_MODEL};
use grok_cli::tools::{TodoItem, TodoStatus, ToolDisplay};
use grok_cli::tui::figures::{meter, percent};
use grok_cli::tui::markdown::{to_plain, Line, Style};
use grok_cli::tui::render::{
    build_transcript, caret, input_frame, input_height, input_lines, is_drawable, justify,
    palette_area, palette_lines, permission_lines, picker_lines, short_path, status_row,
    status_row_below, transcript_title, width_inside, wrapped_height, Area, DETAIL_PREFIX,
    MAX_DIFF_LINES,
};
use grok_cli::tui::{App, NoticeLevel, Overlay, PickerEntry, ToolState, TranscriptItem};
use grok_cli::util::{self, Duration};

fn app() -> App {
    App::new("/tmp", Some("/home/u"), "dark", DEFAULT_MODEL, PermissionMode::Default, "test")
}

/// Everything that would be on the screen, as text.
fn screen(app: &mut App, width: u16, height: u16) -> String {
    let below = input_height(app) + 2;
    let lines = build_transcript(app, width_inside(width), 0);
    app.measure(&lines, width, height.saturating_sub(below));
    let mut parts = vec![
        transcript_title(app),
        to_plain(&lines),
        to_plain(&input_lines(app)),
        input_frame(app).1.to_string(),
        to_plain(&vec![status_row(app, width), status_row_below(app, width)]),
    ];
    match &app.overlay {
        Overlay::Closed => {}
        Overlay::Permission(r) => {
            parts.push(" permission required ".to_string());
            parts.push(to_plain(&permission_lines(&app.theme, r, height)));
        }
        Overlay::Palette { entries, selected } => {
            parts.push(to_plain(&palette_lines(&app.theme, entries, *selected)));
        }
        Overlay::Picker { entries, selected, .. } => {
            parts.push(to_plain(&picker_lines(&app.theme, entries, *selected, height)));
        }
    }
    parts.join("\n")
}

fn finished(summary: &str, display: ToolDisplay) -> ToolState {
    ToolState::Finished {
        summary: Some(summary.into()),
        display,
        is_error: false,
        duration: Duration::from_millis(10),
    }
}

fn tool(summary: &str, state: ToolState) -> TranscriptItem {
    TranscriptItem::Tool { id: "t1".into(), name: "tool".into(), summary: summary.into(), state }
}

#[test]
fn an_empty_session_shows_the_welcome_banner() {
    let mut a = app();
    let out = screen(&mut a, 80, 24);
    assert!(out.contains("grok-cli"), "got:\n{out}");
    assert!(out.contains("/help"), "the user is told how to start: \n{out}");
}

#[test]
fn a_conversation_renders_both_turns() {
    let mut a = app();
    a.transcript.push(TranscriptItem::User("fix the bug".into()));
    a.transcript.push(TranscriptItem::Assistant { text: "Fixed it.".into(), done: true });

    let out = screen(&mut a, 80, 24);
    assert!(out.contains("fix the bug"), "the user's message must appear:\n{out}");
    assert!(out.contains("Fixed it."), "the reply must appear:\n{out}");
}

#[test]
fn markdown_in_a_reply_is_rendered_not_printed_raw() {
    let mut a = app();
    a.transcript
        .push(TranscriptItem::Assistant { text: "Use **bold** here.".into(), done: true });
    let out = screen(&mut a, 80, 12);
    assert!(out.contains("Use bold here."), "got:\n{out}");
    assert!(!out.contains("**"), "raw asterisks would look broken:\n{out}");
}

#[test]
fn a_running_tool_shows_as_running_and_a_finished_one_shows_its_summary() {
    let mut a = app();
    a.transcript.push(tool("Read(src/main.rs)", ToolState::Running { started: 0 }));
    assert!(screen(&mut a, 80, 12).contains("running"));

    let TranscriptItem::Tool { state, .. } = &mut a.transcript[0] else { panic!() };
    *state = finished("142 lines", ToolDisplay::default());
    let out = screen(&mut a, 80, 12);
    assert!(out.contains("Read(src/main.rs)"), "got:\n{out}");
    assert!(out.contains("142 lines"), "got:\n{out}");
}

#[test]
fn an_edit_renders_its_diff() {
    let mut a = app();
    let display = ToolDisplay {
        diff: util::diff_lines("old line\n", "new line\n", 0),
        ..Default::default()
    };
    a.transcript.push(tool("Edit(a.rs)", finished("+1 -1", display)));

    let out = screen(&mut a, 80, 20);
    assert!(out.contains("-old line"), "removals are shown:\n{out}");
    assert!(out.contains("+new line"), "additions are shown:\n{out}");
}

#[test]
fn counts_in_the_status_bar_are_pluralised_correctly() {
    let mut a = app();
    a.tool_count = 12;
    a.subagent_count = 1;
    let out = screen(&mut a, 118, 14);
    assert!(out.contains("1 agent"), "got:\n{out}");
    assert!(!out.contains("1 agents"), "singular must not read as plural:\n{out}");

    a.subagent_count = 3;
    let out = screen(&mut a, 118, 14);
    assert!(out.contains("3 agents"), "got:\n{out}");
}

#[test]
fn the_context_window_is_shown_in_human_units() {
    let mut a = app();
    let out = screen(&mut a, 118, 14);
    assert!(out.contains("2.0M"), "a 2M window must not render as 2000k:\n{out}");
}

#[test]
fn the_banner_shows_what_a_new_user_needs() {
    let mut a = app();
    a.branch = Some("main".into());
    a.tool_count = 12;
    a.subagent_count = 2;
    a.mcp_count = 3;
    let out = screen(&mut a, 118, 20);

    for expected in [
        "grok-cli", "model", "directory", "permissions", "tools", "main", "3 from MCP",
        "2 subagents", "/help",
    ] {
        assert!(out.contains(expected), "banner omits {expected:?}:\n{out}");
    }
}

#[test]
fn the_context_meter_fills_as_the_window_fills() {
    let share = |part: u64| meter(percent(part, 1000));
    assert_eq!(share(0), "▯▯▯▯▯▯▯▯");
    assert_eq!(share(1000), "▮▮▮▮▮▮▮▮");
    assert_eq!(share(500), "▮▮▮▮▯▯▯▯");
    // Any usage at all must show, or a busy session reads as empty.
    assert_eq!(share(1), "▮▯▯▯▯▯▯▯");
    assert_eq!(meter(percent(u64::MAX, 131_072)), "▮▮▮▮▮▮▮▮");
}

#[test]
fn the_status_bar_shows_mode_model_and_context() {
    let mut a = app();
    a.mode = PermissionMode::Plan;
    a.context_tokens = 12_400;

    let out = screen(&mut a, 100, 12);
    assert!(out.contains("plan"), "got:\n{out}");
    assert!(out.contains(&a.model), "got:\n{out}");
    assert!(out.contains("12.4k"), "got:\n{out}");
}

#[test]
fn bypass_mode_is_visually_loud() {
    let mut a = app();
    a.mode = PermissionMode::BypassPermissions;
    let out = screen(&mut a, 100, 12);
    assert!(
        out.contains("permissions bypassed"),
        "running without safety checks must be impossible to miss:\n{out}"
    );
}

#[test]
fn a_permission_prompt_covers_the_transcript_and_lists_the_choices() {
    let mut a = app();
    a.transcript.push(TranscriptItem::User("hidden behind the modal".into()));
    a.overlay = Overlay::Permission(PermissionRequest {
        tool_name: "bash".into(),
        summary: "Bash(rm -rf build)".into(),
        argument: "rm -rf build".into(),
        preview: None,
    });

    let out = screen(&mut a, 80, 20);
    assert!(out.contains("permission required"), "got:\n{out}");
    assert!(out.contains("Bash(rm -rf build)"), "got:\n{out}");
    assert!(out.contains("allow once"), "got:\n{out}");
    assert!(out.contains("decline"), "got:\n{out}");
}

#[test]
fn a_permission_prompt_for_an_edit_shows_the_diff_not_just_the_path() {
    let mut a = app();
    a.overlay = Overlay::Permission(PermissionRequest {
        tool_name: "edit_file".into(),
        summary: "Edit(src/auth.rs)".into(),
        argument: "src/auth.rs".into(),
        preview: Some("-if now < expiry\n+if now <= expiry".into()),
    });

    let out = screen(&mut a, 80, 20);
    assert!(out.contains("+if now <= expiry"), "approve the change, not the filename:\n{out}");
}

#[test]
fn the_command_palette_lists_matching_commands() {
    let mut a = app();
    a.overlay = Overlay::Palette { entries: complete("/co", &vec![]), selected: 0 };
    let out = screen(&mut a, 90, 24);
    assert!(out.contains("/compact"), "got:\n{out}");
    assert!(out.contains("/cost"), "got:\n{out}");
}

#[test]
fn every_glyph_the_ui_draws_exists_in_a_default_terminal_font() {
    let forbidden = |c: char| {
        let u = c as u32;
        (0x2300..=0x23FF).contains(&u) || (0x2800..=0x28FF).contains(&u)
    };

    assert!(!forbidden(DETAIL_PREFIX), "tool detail prefix is not renderable");
    let mut a = app();
    for frame in 0..8 {
        a.spinner_frame = frame;
        for c in a.spinner().chars() {
            assert!(!forbidden(c), "spinner frame {frame} is not renderable");
        }
    }

    a.transcript.push(tool("Bash(cargo test)", finished("exit 0", ToolDisplay::default())));
    for c in screen(&mut a, 90, 20).chars() {
        assert!(!forbidden(c), "renderer emitted unrenderable glyph {c:?} (U+{:04X})", c as u32);
    }
}

#[test]
fn rendering_is_stable_at_a_tiny_terminal_size() {
    // Panicking on a small window is a real crash people hit.
    let mut a = app();
    a.transcript.push(TranscriptItem::Assistant { text: "hello".into(), done: true });
    let _ = screen(&mut a, 20, 6);
    let _ = screen(&mut a, 4, 3);
    let _ = screen(&mut a, 0, 0);
}

#[test]
fn long_content_reports_a_scrollable_height() {
    let mut a = app();
    for i in 0..80 {
        a.transcript
            .push(TranscriptItem::Notice { text: format!("line {i}"), level: NoticeLevel::Info });
    }
    screen(&mut a, 80, 20);
    assert!(a.content_height > a.viewport_height, "the transcript must be scrollable");
    assert!(a.max_scroll() > 0);
}

#[test]
fn a_pinned_scroll_position_survives_a_redraw() {
    let mut a = app();
    for i in 0..80 {
        a.transcript
            .push(TranscriptItem::Notice { text: format!("line {i}"), level: NoticeLevel::Info });
    }
    screen(&mut a, 80, 20);
    a.scroll_up(10);
    let pinned = a.scroll;
    screen(&mut a, 80, 20);
    assert_eq!(a.scroll, pinned, "redrawing must not yank a scrolled-back view");
}

#[test]
fn heights_count_wrapped_rows() {
    let line = |s: &str| Line::of(s, Style::plain());
    assert_eq!(wrapped_height(&line(""), 10), 1);
    assert_eq!(wrapped_height(&line("0123456789"), 10), 1);
    assert_eq!(wrapped_height(&line("0123456789x"), 10), 2);
    assert_eq!(wrapped_height(&line("日本語"), 4), 2, "wide characters take two cells");
    assert_eq!(wrapped_height(&line("a\n\nb"), 10), 3);
    assert_eq!(wrapped_height(&line("abc"), 0), 1);
}

#[test]
fn long_diffs_are_elided() {
    let mut a = app();
    let new: String = (0..20).map(|i| format!("{i}\n")).collect();
    let display = ToolDisplay { diff: util::diff_lines("", &new, 0), ..Default::default() };
    a.transcript.push(tool("Write(a)", finished("+20", display)));
    let out = screen(&mut a, 80, 40);
    assert!(out.contains(&format!("… {} more lines", 20 - MAX_DIFF_LINES)), "got:\n{out}");
}

#[test]
fn slow_tools_say_how_long_they_took() {
    let mut a = app();
    a.transcript.push(tool(
        "Bash(make)",
        ToolState::Finished {
            summary: None,
            display: ToolDisplay::default(),
            is_error: true,
            duration: Duration::from_millis(2_400),
        },
    ));
    assert!(screen(&mut a, 80, 12).contains("└ failed · 2.4s"));
    a.transcript.clear();
    a.transcript.push(tool(
        "Bash(make)",
        ToolState::Finished {
            summary: None,
            display: ToolDisplay::default(),
            is_error: false,
            duration: Duration::from_millis(500),
        },
    ));
    let out = screen(&mut a, 80, 12);
    assert!(out.contains("└ done"), "got:\n{out}");
    assert!(!out.contains("500ms"), "got:\n{out}");
}

#[test]
fn the_caret_stands_where_typing_lands() {
    let mut a = app();
    a.textarea.insert_str("日x");
    let area = Area { x: 0, y: 10, width: 40, height: 3 };
    assert_eq!(caret(&a, area), Some((4, 11)));
    assert_eq!(caret(&a, Area { width: 4, ..area }), None, "outside the box");
    a.busy = true;
    assert_eq!(caret(&a, area), None);
}

#[test]
fn the_status_bar_tells_what_is_left_to_do() {
    let mut a = app();
    a.todos = vec![
        TodoItem { content: "a".into(), status: TodoStatus::Completed },
        TodoItem { content: "b".into(), status: TodoStatus::Pending },
    ];
    a.usage.total_tokens = 1_500;
    let row = to_plain(&vec![status_row_below(&a, 200)]);
    assert!(row.contains("☐ 1 left"), "got: {row}");
    assert!(row.contains("1.5k used"), "got: {row}");
    assert!(row.ends_with("? /help "), "got: {row}");
    assert_eq!(row.chars().count(), 200, "the right side stands against the edge");
}

#[test]
fn rows_are_filled_up_between_their_sides() {
    let row = justify(Line::of("ab", Style::plain()), Line::of("c", Style::plain()), 6);
    assert_eq!(to_plain(&vec![row]), "ab   c");
    let tight = justify(Line::of("ab", Style::plain()), Line::of("c", Style::plain()), 2);
    assert_eq!(to_plain(&vec![tight]), "abc");
}

#[test]
fn the_home_directory_is_abbreviated() {
    let home = Some("/home/u".to_string());
    assert_eq!(short_path("/home/u/x", &home), "~/x");
    assert_eq!(short_path("/srv/x", &home), "/srv/x");
    assert_eq!(short_path("/srv/x", &None), "/srv/x");
}

#[test]
fn the_selected_entry_stays_in_view() {
    let entries: Vec<PickerEntry> = (0..30)
        .map(|i| PickerEntry {
            label: format!("entry {i}"),
            detail: String::new(),
            value: i.to_string(),
        })
        .collect();
    let a = app();
    let lines = picker_lines(&a.theme, &entries, 20, 7);
    assert_eq!(lines.len(), 5);
    assert!(to_plain(&lines).contains("▸ entry 20"));
    let commands = complete("/", &vec![]);
    let last = commands.len() - 1;
    let shown = to_plain(&palette_lines(&a.theme, &commands, last));
    assert!(shown.contains(&format!("▸ {}", commands[last].display())), "got:\n{shown}");
    let area = palette_area(Area { x: 0, y: 0, width: 100, height: 30 }, commands.len());
    assert_eq!((area.x, area.width, area.height), (2, 76, 14));
    assert_eq!(area.y, 12);
}

#[test]
fn a_screen_that_nothing_fits_in_is_not_drawn_on() {
    assert!(!is_drawable(0, 0));
    assert!(!is_drawable(3, 24));
    assert!(!is_drawable(80, 3));
    assert!(is_drawable(4, 4));
}
