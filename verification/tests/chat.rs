use grok_cli::chat::{get_tools, list_files, App, Author, DirEntry};

#[test]
fn what_is_typed_is_said_once() {
    let mut app = App::new();
    app.submit_msg();
    assert!(app.messages.is_empty(), "nothing was typed");
    app.input.push_str("hello");
    app.submit_msg();
    app.submit_msg();
    assert_eq!(app.messages.len(), 1);
    assert_eq!(app.messages[0].author, Author::User);
    assert_eq!(app.messages[0].content, "hello");
    assert!(app.input.is_empty());
}

#[test]
fn the_view_does_not_scroll_above_the_top() {
    let mut app = App::new();
    app.scroll_up();
    assert_eq!(app.scroll, 0);
    app.scroll_down();
    app.scroll_down();
    app.scroll_up();
    assert_eq!(app.scroll, 1);
}

#[test]
fn listings_are_sorted_and_mark_directories() {
    let entry = |name: Option<&str>, is_dir| DirEntry { name: name.map(String::from), is_dir };
    let entries = vec![entry(Some("src"), true), entry(None, false), entry(Some("Cargo.toml"), false)];
    assert_eq!(list_files(&entries), "Cargo.toml      Unknown      src/");
    assert_eq!(list_files(&vec![]), "");
}

#[test]
fn both_tools_take_a_path() {
    let tools = get_tools();
    assert_eq!(tools[0].function.name, "list_files");
    assert_eq!(tools[1].function.name, "read_file");
    for tool in &tools {
        assert!(tool.function.parameters.get("properties").unwrap().get("path").is_some());
    }
}
