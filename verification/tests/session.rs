use grok_cli::api::types::{copies_to_send, Message, Role, Usage};
use grok_cli::session::{Session, SessionStore, StoredFile, TranscriptEntry};

fn store() -> SessionStore {
    SessionStore::new("/store/sessions")
}

fn new_session(id: &str) -> Session {
    store().create(id, "/repo", "grok-4", Ok(()))
}

/// The file that a session's records make.
fn file_of(session: &mut Session, modified: i128) -> StoredFile {
    StoredFile {
        path: session.path.clone().unwrap(),
        modified,
        lines: Some(session.take_pending().into_iter().map(Some).collect()),
    }
}

fn usage() -> Usage {
    Usage { prompt_tokens: 10, completion_tokens: 4, total_tokens: 14, prompt_tokens_details: None }
}

#[test]
fn a_new_session_writes_a_meta_record_and_round_trips() {
    let mut session = store().create("s1", "/repo", "grok-4-1-fast-non-reasoning", Ok(()));
    assert!(session.persistence_error.is_none(), "{:?}", session.persistence_error);
    session.push(Message::user("fix the auth bug"));
    session.push(Message::assistant("Looking at it."));
    session.record_usage(&usage());

    let path = session.path.clone().unwrap();
    assert_eq!(path, "/store/sessions/s1.jsonl");
    let lines: Vec<Option<TranscriptEntry>> =
        session.take_pending().into_iter().map(Some).collect();
    assert!(Session::fits(&path, &lines));
    let reloaded = Session::load(&path, lines);

    assert_eq!(reloaded.id, session.id);
    assert_eq!(reloaded.model, "grok-4-1-fast-non-reasoning");
    assert_eq!(reloaded.messages.len(), 2);
    assert_eq!(reloaded.messages[0].content.as_deref(), Some("fix the auth bug"));
    assert_eq!(reloaded.usage.total_tokens, 14, "usage survives a reload");
}

#[test]
fn a_truncated_final_line_does_not_destroy_the_session() {
    let mut session = new_session("s1");
    session.push(Message::user("first"));
    let path = session.path.clone().unwrap();
    let mut lines: Vec<Option<TranscriptEntry>> =
        session.take_pending().into_iter().map(Some).collect();
    // A line that cannot be read comes as nothing.
    lines.push(None);

    let reloaded = Session::load(&path, lines);
    assert_eq!(reloaded.messages.len(), 1, "the intact record is still recovered");
}

#[test]
fn listing_labels_sessions_by_their_opening_message() {
    let mut s = new_session("s1");
    s.push(Message::user("add retry to the http client"));

    let listed = store().list(&vec![file_of(&mut s, 1)]);
    assert_eq!(listed.len(), 1);
    assert_eq!(listed[0].title.as_deref(), Some("add retry to the http client"));
    assert_eq!(listed[0].message_count, 1);
    assert_eq!(listed[0].label(), "add retry to the http client");
}

#[test]
fn an_explicit_title_wins_over_the_opening_message() {
    let mut s = new_session("s1");
    s.push(Message::user("some rambling opening line"));
    s.set_title("HTTP retry work");

    assert_eq!(
        store().list(&vec![file_of(&mut s, 1)])[0].title.as_deref(),
        Some("HTTP retry work")
    );
}

#[test]
fn empty_sessions_are_not_offered_for_resume() {
    let mut abandoned = new_session("s1");
    let files = vec![file_of(&mut abandoned, 1)];
    assert!(store().list(&files).is_empty(), "a session with no messages is not resumable");
    assert!(store().most_recent(&files).is_none());
}

#[test]
fn listing_orders_the_most_recent_session_first() {
    let mut older = new_session("older");
    older.push(Message::user("older"));
    let mut newer = new_session("newer");
    newer.push(Message::user("newer"));

    let files = vec![file_of(&mut older, 1_000), file_of(&mut newer, 2_000)];
    assert_eq!(store().most_recent(&files).unwrap().id, newer.id);
}

#[test]
fn sessions_resolve_by_id_prefix_but_never_ambiguously() {
    let mut s = new_session("0123456789ab");
    s.push(Message::user("hello"));
    let mut t = new_session("0123999999ab");
    t.push(Message::user("hello"));
    let id = s.id.clone();
    let files = vec![file_of(&mut s, 1), file_of(&mut t, 2)];

    assert!(store().find(&files, &id).is_some(), "exact id resolves");
    assert!(store().find(&files, &id[..8]).is_some(), "unique prefix resolves");
    assert!(store().find(&files, "0123").is_none(), "an ambiguous prefix does not");
    assert!(store().find(&files, "zzzz").is_none());
}

#[test]
fn clear_keeps_the_system_prompt_and_drops_the_rest() {
    let mut s = Session {
        id: "x".into(),
        path: None,
        model: "grok-4".into(),
        title: None,
        messages: vec![
            Message::system("you are grok"),
            Message::user("hi"),
            Message::assistant("hello"),
        ],
        usage: Usage { total_tokens: 99, ..Default::default() },
        reported_tokens: Some(80),
        persistence_error: None,
        pending: vec![],
    };
    s.clear();
    assert_eq!(s.messages.len(), 1);
    assert!(s.messages[0].is_role(Role::System));
    assert_eq!(s.usage.total_tokens, 0);
    assert_eq!(s.reported_tokens, None);
}

#[test]
fn a_session_that_cannot_be_persisted_still_runs() {
    let mut s = store().create("s1", "/repo", "grok-4", Err("Not a directory".into()));
    assert!(s.persistence_error.is_some(), "the failure is recorded");
    assert!(s.path.is_none());

    s.push(Message::user("still works"));
    assert_eq!(s.messages.len(), 1, "the conversation continues in memory");
    assert!(s.take_pending().is_empty(), "and nothing waits to be written");
}

#[test]
fn tokens_are_estimated_from_bytes_and_structure() {
    let mut s = Session::in_memory("x", "grok-4");
    s.push(Message::user("abcd"));
    s.push(Message::user("abcde"));
    assert_eq!(s.estimated_context_tokens(), (1 + 4) + (2 + 4));
    assert_eq!(s.turn_count(), 2);
}

#[test]
fn a_session_without_a_title_goes_by_its_id() {
    let mut s = new_session("0123456789ab");
    s.push(Message::assistant("unprompted"));
    let listed = store().list(&vec![file_of(&mut s, 1)]);
    assert_eq!(listed[0].label(), "session 01234567");
}

#[test]
fn records_carry_the_moment_they_were_made() {
    let mut s = new_session("s1");
    let entries = s.take_pending();
    let TranscriptEntry::Meta { at, workspace, .. } = &entries[0] else { panic!("{entries:?}") };
    assert_eq!(workspace, "/repo");
    assert_eq!(at.len(), "2026-01-01T00:00:00Z".len());
    assert!(at.as_str() > "2020-01-01T00:00:00Z", "a clock that runs: {at}");
}

#[test]
fn reasoning_traces_are_neither_sent_nor_stored() {
    let mut session = new_session("s1");
    session.take_pending();
    let mut message = Message::assistant("answer");
    message.reasoning_content = Some("because".into());
    session.push(message);
    assert_eq!(session.messages[0].reasoning_content.as_deref(), Some("because"));

    let pending = session.take_pending();
    let TranscriptEntry::Message { message, .. } = &pending[0] else { panic!() };
    assert_eq!(message.reasoning_content, None);
    assert_eq!(message.content.as_deref(), Some("answer"));

    let sent = copies_to_send(&session.messages);
    assert_eq!(sent.len(), 1);
    assert_eq!(sent[0].reasoning_content, None);
    assert_eq!(sent[0].content.as_deref(), Some("answer"));
}

#[test]
fn counters_say_what_they_can_hold() {
    let full = Usage { total_tokens: u64::MAX, ..usage() };
    assert!(usage().can_add(&usage()));
    assert!(!full.can_add(&usage()));
}

#[test]
fn reported_tokens_replace_the_estimate() {
    let mut s = new_session("s1");
    s.push(Message::user("abcd"));
    assert_eq!(s.estimated_context_tokens(), 5, "nothing was reported yet");
    s.record_usage(&usage());
    assert_eq!(s.estimated_context_tokens(), 10);
    s.push(Message::user("more"));
    s.record_usage(&Usage { prompt_tokens: 0, ..usage() });
    assert_eq!(s.estimated_context_tokens(), 10, "a response without a count says nothing");

    let file = file_of(&mut s, 1);
    let restored = Session::load(&file.path, file.lines.unwrap());
    assert_eq!(restored.estimated_context_tokens(), 10, "a resume knows the count");

    s.record_compaction("short", 1);
    assert_eq!(s.estimated_context_tokens(), 10, "two messages of five tokens each");
    s.clear();
    assert_eq!(s.estimated_context_tokens(), 0);
}

#[test]
fn a_resume_starts_from_the_latest_summary() {
    let mut s = new_session("s1");
    s.push(Message::system("rules"));
    s.push(Message::user("one"));
    s.record_compaction("the user said one", 1);
    s.push(Message::assistant("two"));
    let file = file_of(&mut s, 1);
    let restored = Session::load(&file.path, file.lines.unwrap());
    let texts: Vec<_> = restored.messages.iter().filter_map(|m| m.content.as_deref()).collect();
    assert_eq!(texts, ["rules", "the user said one", "two"]);
}
