use lockbook::chat_poll::{
    chat_entries_from_fs_base, duration_overflows, find_new_messages, initialize_entry,
    is_chat_file, needs_read, parse_duration, poll_chat, webhook_payload, ChatState, ChatStates,
    FsBaseEntry, Message, PollDuration,
};

fn msgs(list: &[(&str, &str, i64)]) -> Vec<Message> {
    list.iter()
        .map(|(from, content, ts)| Message {
            from: from.to_string(),
            content: content.to_string(),
            ts: *ts,
        })
        .collect()
}

fn entry(path: &str, hash: [u8; 32]) -> FsBaseEntry {
    FsBaseEntry { local_path: path.to_string(), content_hash: hash, lb_last_modified: 0 }
}

#[test]
fn find_new_messages_empty_when_hash_unchanged() {
    let messages = msgs(&[("alice", "hello", 100)]);
    let hash = [1u8; 32];
    let mut state = ChatState { content_hash: hash, last_processed_ts: 100 };
    let out = find_new_messages(&messages, "bot", hash, &mut state);
    assert!(out.is_empty());
}

#[test]
fn find_new_messages_detects_new_human_message() {
    let messages = msgs(&[("alice", "hello", 100)]);
    let mut state = ChatState { content_hash: [0; 32], last_processed_ts: 0 };
    let out = find_new_messages(&messages, "bot", [1; 32], &mut state);
    assert_eq!(out.len(), 1);
    assert_eq!(out[0].from, "alice");
    assert_eq!(out[0].content, "hello");
}

#[test]
fn find_new_messages_skips_agent_messages() {
    let messages = msgs(&[("alice", "hello", 100), ("bot", "hi there", 101)]);
    let mut state = ChatState { content_hash: [0; 32], last_processed_ts: 0 };
    let out = find_new_messages(&messages, "bot", [1; 32], &mut state);
    assert_eq!(out.len(), 1);
    assert_eq!(out[0].from, "alice");
}

#[test]
fn find_new_messages_respects_last_processed_ts() {
    let messages = msgs(&[("alice", "old", 100), ("alice", "new", 200)]);
    let mut state = ChatState { content_hash: [0; 32], last_processed_ts: 150 };
    let out = find_new_messages(&messages, "bot", [1; 32], &mut state);
    assert_eq!(out.len(), 1);
    assert_eq!(out[0].content, "new");
}

#[test]
fn initialize_state_from_fs_base() {
    let fs_base = vec![entry("a.chat", [1; 32]), entry("sub/b.chat", [2; 32])];
    let contents = vec![
        msgs(&[("alice", "hello", 100)]),
        msgs(&[("bob", "hey", 200), ("bob", "there", 300)]),
    ];
    let mut state = ChatStates::new();
    for (e, m) in fs_base.iter().zip(contents.iter()) {
        initialize_entry(&mut state, e, m);
    }

    assert_eq!(state.len(), 2);
    assert_eq!(state.get("a.chat").unwrap().last_processed_ts, 100);
    assert_eq!(state.get("a.chat").unwrap().content_hash, [1; 32]);
    assert_eq!(state.get("sub/b.chat").unwrap().last_processed_ts, 300);
    assert_eq!(state.get("sub/b.chat").unwrap().content_hash, [2; 32]);
}

#[test]
fn initialize_state_ignores_non_chat_files() {
    let fs_base = vec![entry("readme.md", [1; 32]), entry("a.chat", [2; 32])];
    let contents = vec![Vec::new(), msgs(&[("alice", "hi", 100)])];
    let mut state = ChatStates::new();
    for (e, m) in fs_base.iter().zip(contents.iter()) {
        initialize_entry(&mut state, e, m);
    }

    assert_eq!(state.len(), 1);
    assert!(state.contains_key("a.chat"));
}

#[test]
fn find_new_messages_updates_state() {
    let messages = msgs(&[("alice", "a", 5), ("bot", "b", 9)]);
    let mut state = ChatState { content_hash: [0; 32], last_processed_ts: 0 };
    find_new_messages(&messages, "bot", [7; 32], &mut state);
    assert_eq!(state.content_hash, [7; 32]);
    assert_eq!(state.last_processed_ts, 9);
    let again = find_new_messages(&messages, "bot", [7; 32], &mut state);
    assert!(again.is_empty());
}

#[test]
fn chat_entries_keep_only_chats() {
    let fs_base = vec![entry("x.chat", [1; 32]), entry("y.txt", [2; 32]), entry("chat", [3; 32])];
    let chats = chat_entries_from_fs_base(&fs_base);
    assert_eq!(chats.len(), 1);
    assert_eq!(chats[0].local_path, "x.chat");
    assert!(is_chat_file("dir/a.chat"));
    assert!(!is_chat_file(".cha"));
}

#[test]
fn chat_entries_are_keyed_by_path() {
    let fs_base = vec![entry("a.chat", [1; 32]), entry("b.chat", [2; 32]), entry("a.chat", [3; 32])];
    let chats = chat_entries_from_fs_base(&fs_base);
    assert_eq!(chats.len(), 2);
    assert_eq!(chats[0].local_path, "a.chat");
    assert_eq!(chats[0].content_hash, [3; 32]);
    assert_eq!(chats[1].local_path, "b.chat");
}

#[test]
fn poll_chat_new_file_dispatches_all_human_messages() {
    let mut states = ChatStates::new();
    let messages = msgs(&[("alice", "one", 1), ("bot", "two", 2), ("carol", "three", 3)]);
    assert!(needs_read(&states, "n.chat", &[4; 32]));
    let out = poll_chat(&mut states, "n.chat", "bot", [4; 32], &messages);
    assert_eq!(out.len(), 2);
    assert_eq!(states.get("n.chat").unwrap().last_processed_ts, 3);
    assert!(!needs_read(&states, "n.chat", &[4; 32]));
    let payload = webhook_payload("n.chat", &out, "/sync", "bot");
    assert_eq!(payload.messages.len(), 2);
    assert_eq!(payload.messages[1].content, "three");
    assert_eq!(payload.thread, "n.chat");
}

#[test]
fn parse_duration_forms() {
    assert_eq!(parse_duration("5s").unwrap(), PollDuration { secs: 5, millis: 0 });
    assert_eq!(parse_duration(" 2m ").unwrap(), PollDuration { secs: 120, millis: 0 });
    assert_eq!(parse_duration("7").unwrap(), PollDuration { secs: 7, millis: 0 });
    assert_eq!(parse_duration("500ms").unwrap(), PollDuration { secs: 0, millis: 500 });
    assert_eq!(parse_duration("xms").unwrap_err(), "invalid duration: xms");
    assert_eq!(parse_duration("xs").unwrap_err(), "invalid duration: xs");
    assert_eq!(
        parse_duration("abc").unwrap_err(),
        "invalid duration: abc (expected e.g. 5s, 500ms, 1m)"
    );
    assert!(duration_overflows("18446744073709551615m"));
    assert!(!duration_overflows("10m"));
}
