use ofscp_transport::ledger::{
    extract_user_id, stored_message_from_wire, ChannelMessages, MessagesStore, StoredMessage,
};
use ofscp_transport::models::{BaseMessage, Content, MessageType, UserRef};

fn msg(id: &str, t: i64) -> StoredMessage {
    StoredMessage {
        id: id.to_string(),
        user_id: "alice@example.com".to_string(),
        title: None,
        content: format!("message {}", id),
        message_type: MessageType::Message,
        created_at: t,
        parent_id: None,
        parent_message_type: None,
        attachments: vec![],
    }
}

fn timestamps(ch: &ChannelMessages) -> Vec<i64> {
    ch.messages.iter().map(|m| m.created_at).collect()
}

#[test]
fn add_is_idempotent_by_id() {
    let mut ch = ChannelMessages::new();
    assert!(ch.add_message(msg("a", 5)));
    assert!(ch.add_message(msg("b", 7)));
    let before: Vec<String> = ch.messages.iter().map(|m| m.id.clone()).collect();
    // same id, even with a different timestamp, leaves the buffer unchanged
    assert!(!ch.add_message(msg("a", 99)));
    let after: Vec<String> = ch.messages.iter().map(|m| m.id.clone()).collect();
    assert_eq!(before, after);
    assert_eq!(ch.messages.len(), 2);
}

#[test]
fn add_keeps_ascending_order_regardless_of_arrival() {
    let mut ch = ChannelMessages::new();
    ch.add_message(msg("m3", 3));
    ch.add_message(msg("m1", 1));
    ch.add_message(msg("m2", 2));
    assert_eq!(timestamps(&ch), vec![1, 2, 3]);
}

#[test]
fn history_then_live_insert_stays_sorted() {
    let mut ch = ChannelMessages::new();
    ch.set_history(vec![msg("h5", 5), msg("h2", 2)]);
    assert!(ch.is_loaded);
    assert_eq!(timestamps(&ch), vec![2, 5]);
    ch.add_message(msg("l8", 8));
    assert_eq!(timestamps(&ch), vec![2, 5, 8]);
}

#[test]
fn live_insert_before_history_tail() {
    let mut ch = ChannelMessages::new();
    ch.set_history(vec![msg("h1", 10), msg("h2", 30)]);
    ch.add_message(msg("l", 20));
    assert_eq!(timestamps(&ch), vec![10, 20, 30]);
}

#[test]
fn store_routes_messages_per_channel() {
    let mut store = MessagesStore::new();
    assert!(!store.is_channel_loaded("general"));
    store.add_message("general", msg("a", 1));
    store.add_message("random", msg("b", 2));
    assert!(store.get_channel_messages("general").is_some());
    assert_eq!(store.get_channel_messages("general").unwrap().messages.len(), 1);
    assert_eq!(store.get_channel_messages("random").unwrap().messages.len(), 1);
    assert!(store.get_channel_messages("absent").is_none());
    // adding does not mark the channel as loaded; history does
    assert!(!store.is_channel_loaded("general"));
    store.set_channel_history("general", vec![msg("h", 0), msg("a", 1)]);
    assert!(store.is_channel_loaded("general"));
    assert_eq!(store.get_channel_messages("general").unwrap().messages.len(), 2);
}

#[test]
fn author_uri_resolves_to_handle_at_domain() {
    let uri = UserRef::Uri("ofscp://example.com/users/bob".to_string());
    assert_eq!(extract_user_id(&uri), "bob@example.com");
    let handle = UserRef::Handle("carol@other.net".to_string());
    assert_eq!(extract_user_id(&handle), "carol@other.net");
    let foreign = UserRef::Uri("https://elsewhere/users/x".to_string());
    assert_eq!(extract_user_id(&foreign), "https://elsewhere/users/x");
}

#[test]
fn wire_message_normalizes_into_stored_form() {
    let wire = BaseMessage {
        id: "m-1".to_string(),
        author: UserRef::Uri("ofscp://example.com/users/bob".to_string()),
        message_type: MessageType::Memo,
        title: Some("hello".to_string()),
        content: Content { text: "body text".to_string(), mime: "text/markdown".to_string() },
        attachments: vec![],
        created_at: "2024-01-01T00:00:00+00:00".to_string(),
        parent_id: None,
        parent_message_type: None,
    };
    let stored = stored_message_from_wire(&wire).expect("valid timestamp must convert");
    assert_eq!(stored.id, "m-1");
    assert_eq!(stored.user_id, "bob@example.com");
    assert_eq!(stored.title.as_deref(), Some("hello"));
    assert_eq!(stored.content, "body text");
    assert_eq!(stored.message_type, MessageType::Memo);
    assert_eq!(stored.created_at, 1704067200000);
    assert!(stored.parent_id.is_none());
}

#[test]
fn unparseable_timestamp_rejects_the_message() {
    let wire = BaseMessage {
        id: "m-2".to_string(),
        author: UserRef::Handle("a".to_string()),
        message_type: MessageType::Message,
        title: None,
        content: Content { text: "x".to_string(), mime: "text/plain".to_string() },
        attachments: vec![],
        created_at: "yesterday".to_string(),
        parent_id: None,
        parent_message_type: None,
    };
    assert!(stored_message_from_wire(&wire).is_none());
}

#[test]
fn equal_timestamps_keep_argument_order() {
    let mut ch = ChannelMessages::new();
    // three messages sharing one timestamp: the stable sort keeps them
    // in the order they were given
    ch.set_history(vec![msg("first", 7), msg("second", 7), msg("early", 3), msg("third", 7)]);
    let ids: Vec<String> = ch.messages.iter().map(|m| m.id.clone()).collect();
    assert_eq!(ids, vec!["early", "first", "second", "third"]);
    // a live insert at the same timestamp lands after its equals
    ch.add_message(msg("fourth", 7));
    let ids: Vec<String> = ch.messages.iter().map(|m| m.id.clone()).collect();
    assert_eq!(ids, vec!["early", "first", "second", "third", "fourth"]);
}
