use grok_cli::tui::input::{TextArea, HISTORY_LIMIT, MAX_VISIBLE_LINES};

fn area_with(text: &str) -> TextArea {
    let mut a = TextArea::new();
    a.insert_str(text);
    a
}

#[test]
fn typing_and_reading_back_round_trips() {
    let a = area_with("hello");
    assert_eq!(a.text(), "hello");
    assert_eq!(a.cursor(), (0, 5));
    assert!(!a.is_empty());
}

#[test]
fn a_new_area_is_empty_but_has_one_line() {
    let a = TextArea::new();
    assert!(a.is_empty());
    assert_eq!(a.lines().len(), 1, "there is always a line to type on");
    assert_eq!(a.visible_height(), 1);
}

#[test]
fn newlines_split_lines_and_the_box_grows() {
    let a = area_with("one\ntwo\nthree");
    assert_eq!(a.lines().len(), 3);
    assert_eq!(a.visible_height(), 3);
    assert_eq!(a.text(), "one\ntwo\nthree");
}

#[test]
fn the_box_stops_growing_at_the_cap() {
    let a = area_with(&"x\n".repeat(50));
    assert_eq!(a.visible_height(), MAX_VISIBLE_LINES, "a long paste must not eat the transcript");
    assert!(a.scroll_offset() > 0, "it scrolls internally instead");
}

#[test]
fn backspace_at_the_start_of_a_line_joins_it_to_the_previous_one() {
    let mut a = area_with("ab\ncd");
    a.move_home();
    assert_eq!(a.cursor(), (1, 0));
    a.backspace();
    assert_eq!(a.text(), "abcd");
    assert_eq!(a.cursor(), (0, 2), "the cursor sits at the seam");
}

#[test]
fn editing_is_character_wise_not_byte_wise() {
    // A byte-indexed implementation panics or corrupts here.
    let mut a = area_with("héllo→");
    a.backspace();
    assert_eq!(a.text(), "héllo");
    a.move_left();
    a.insert_char('X');
    assert_eq!(a.text(), "héllXo");
}

#[test]
fn wide_characters_advance_the_caret_by_two_cells() {
    let a = area_with("日本");
    assert_eq!(a.cursor().1, 2, "two characters");
    assert_eq!(a.cursor_display_col(), 4, "but four terminal cells");
}

#[test]
fn word_motion_skips_whitespace_then_the_word() {
    let mut a = area_with("alpha beta gamma");
    a.move_word_left();
    assert_eq!(a.cursor().1, 11, "start of `gamma`");
    a.move_word_left();
    assert_eq!(a.cursor().1, 6, "start of `beta`");
    a.move_word_right();
    assert_eq!(a.cursor().1, 11);
}

#[test]
fn deleting_a_word_removes_it_and_its_trailing_space() {
    let mut a = area_with("alpha beta");
    a.delete_word_before();
    assert_eq!(a.text(), "alpha ");
    a.delete_word_before();
    assert_eq!(a.text(), "");
}

#[test]
fn kill_to_end_and_start_split_at_the_cursor() {
    let mut a = area_with("keep this drop this");
    a.move_home();
    for _ in 0..10 {
        a.move_right();
    }
    a.kill_to_end();
    assert_eq!(a.text(), "keep this ");

    a.kill_to_start();
    assert_eq!(a.text(), "");
}

#[test]
fn up_reports_whether_it_moved_so_the_caller_can_recall_history() {
    let mut a = area_with("one\ntwo");
    assert!(a.move_up(), "there is a line above");
    assert!(!a.move_up(), "on the first line, Up means history");
    assert!(a.move_down());
    assert!(!a.move_down(), "on the last line, Down means history");
}

#[test]
fn submitting_records_history_and_clears_the_box() {
    let mut a = area_with("first command");
    assert_eq!(a.take(), "first command");
    assert!(a.is_empty());
    assert_eq!(a.history_len(), 1);
}

#[test]
fn an_immediate_repeat_is_not_recorded_twice() {
    let mut a = TextArea::new();
    a.insert_str("same");
    a.take();
    a.insert_str("same");
    a.take();
    assert_eq!(a.history_len(), 1, "duplicate consecutive entries are noise");
}

#[test]
fn blank_submissions_are_not_recorded() {
    let mut a = area_with("   ");
    a.take();
    assert_eq!(a.history_len(), 0);
}

#[test]
fn history_walks_backwards_and_stops_at_the_oldest() {
    let mut a = TextArea::new();
    for cmd in ["first", "second", "third"] {
        a.insert_str(cmd);
        a.take();
    }

    a.history_prev();
    assert_eq!(a.text(), "third");
    a.history_prev();
    assert_eq!(a.text(), "second");
    a.history_prev();
    assert_eq!(a.text(), "first");
    a.history_prev();
    assert_eq!(a.text(), "first", "stepping past the oldest stays put");
}

#[test]
fn history_forward_restores_the_interrupted_draft() {
    let mut a = TextArea::new();
    a.insert_str("committed");
    a.take();

    a.insert_str("half-typed thought");
    a.history_prev();
    assert_eq!(a.text(), "committed");

    a.history_next();
    assert_eq!(a.text(), "half-typed thought", "the draft must not be lost");
}

#[test]
fn typing_after_recalling_history_detaches_from_it() {
    let mut a = TextArea::new();
    a.insert_str("original");
    a.take();

    a.history_prev();
    a.insert_char('!');
    assert_eq!(a.text(), "original!");

    // Down should not now jump to a draft; the edit is the current line.
    a.history_next();
    assert_eq!(a.text(), "original!");
}

#[test]
fn history_can_be_seeded_from_a_resumed_session() {
    let mut a = TextArea::new();
    a.load_history(vec!["older".into(), "  ".into(), "newer".into()]);
    assert_eq!(a.history_len(), 2, "blank entries are dropped");

    a.history_prev();
    assert_eq!(a.text(), "newer");
}

#[test]
fn setting_text_puts_the_cursor_at_the_end() {
    let mut a = TextArea::new();
    a.set_text("line one\nline two");
    assert_eq!(a.cursor(), (1, 8));
}

#[test]
fn carriage_returns_from_a_paste_are_dropped() {
    let a = area_with("one\r\ntwo");
    assert_eq!(a.text(), "one\ntwo", "CRLF pastes must not leave stray \\r");
}

#[test]
fn delete_removes_forward_and_joins_lines() {
    let mut a = area_with("ab\ncd");
    a.set_text("ab\ncd");
    a.row = 0;
    a.col = 2;
    a.delete();
    assert_eq!(a.text(), "abcd");
}

#[test]
fn backspace_undoes_what_was_typed_or_broken() {
    let mut a = area_with("ab");
    a.insert_char('é');
    a.backspace();
    assert_eq!(a.text(), "ab");
    a.insert_newline();
    a.backspace();
    assert_eq!(a.text(), "ab");
    assert_eq!(a.cursor(), (0, 2));
}

#[test]
fn history_keeps_the_newest_entries() {
    let mut a = TextArea::new();
    for i in 0..HISTORY_LIMIT + 5 {
        a.insert_str(&format!("entry {i}"));
        a.take();
    }
    assert_eq!(a.history_len(), HISTORY_LIMIT);
    a.history_prev();
    assert_eq!(a.text(), format!("entry {}", HISTORY_LIMIT + 4));
}

#[test]
fn the_box_scrolls_to_the_cursor() {
    let a = area_with("1\n2\n3\n4\n5\n6\n7\n8\n9\n10\n11\n12");
    assert_eq!(a.cursor(), (11, 2));
    assert_eq!(a.scroll_offset(), 12 - MAX_VISIBLE_LINES);
}
