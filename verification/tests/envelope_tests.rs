use ofscp_transport::envelope::{
    decode_command_envelope, decode_event_envelope, encode_command_envelope,
    encode_event_envelope, message_command, message_command_with_options, new_command_envelope,
    reply_command, subscribe_command, unsubscribe_command, ClientCommand, ServerEvent, WsEnvelope,
};
use ofscp_transport::models::{
    Attachment, Availability, BaseMessage, Content, MessageType, Presence, UserRef,
};

fn subscribe_envelope() -> WsEnvelope<ClientCommand> {
    WsEnvelope {
        id: "f-1".to_string(),
        payload: ClientCommand::Subscribe { channel_id: "general".to_string() },
        ts: "2024-01-01T00:00:00+00:00".to_string(),
        correlation_id: None,
    }
}

#[test]
fn subscribe_frame_text_is_canonical() {
    let text = encode_command_envelope(&subscribe_envelope());
    assert_eq!(
        text,
        "{\"id\":\"f-1\",\"type\":\"subscribe\",\"data\":{\"channel_id\":\"general\"},\"ts\":\"2024-01-01T00:00:00+00:00\"}"
    );
}

#[test]
fn absent_correlation_id_is_omitted_not_null() {
    let text = encode_command_envelope(&subscribe_envelope());
    assert!(!text.contains("correlationId"));
    assert!(!text.contains("null"));
    let mut with = subscribe_envelope();
    with.correlation_id = Some("corr-9".to_string());
    let text2 = encode_command_envelope(&with);
    assert!(text2.contains("\"correlationId\":\"corr-9\""));
}

#[test]
fn message_create_round_trips_through_the_wire() {
    let env = WsEnvelope {
        id: "f-2".to_string(),
        payload: ClientCommand::MessageCreate {
            channel_id: "general".to_string(),
            body: "hi \"quoted\" \\ and\nnewline".to_string(),
            nonce: "n-77".to_string(),
            title: Some("T".to_string()),
            message_type: Some(MessageType::Memo),
            parent_id: None,
            attachments: vec![Attachment {
                id: "a-1".to_string(),
                mime: "image/png".to_string(),
                url: "https://cdn.example.com/a-1".to_string(),
                size: 12345,
            }],
        },
        ts: "2024-01-01T00:00:01+00:00".to_string(),
        correlation_id: Some("corr-1".to_string()),
    };
    let text = encode_command_envelope(&env);
    let back = decode_command_envelope(&text).expect("canonical frame must decode");
    assert_eq!(back, env);
}

#[test]
fn plain_message_round_trips() {
    let env = new_command_envelope(message_command("c", "hello", "n-1"), None);
    let text = encode_command_envelope(&env);
    let back = decode_command_envelope(&text).expect("canonical frame must decode");
    assert_eq!(back, env);
}

#[test]
fn reply_round_trips() {
    let cmd = reply_command("c", "re", "n-2", "parent-1", Some(MessageType::Message), vec![]);
    let env = new_command_envelope(cmd, Some("corr-2".to_string()));
    let text = encode_command_envelope(&env);
    let back = decode_command_envelope(&text).expect("canonical frame must decode");
    assert_eq!(back, env);
}

#[test]
fn command_builders_fill_the_fields() {
    match subscribe_command("ch-1") {
        ClientCommand::Subscribe { channel_id } => assert_eq!(channel_id, "ch-1"),
        _ => panic!("expected a subscribe command"),
    }
    match unsubscribe_command("ch-2") {
        ClientCommand::Unsubscribe { channel_id } => assert_eq!(channel_id, "ch-2"),
        _ => panic!("expected an unsubscribe command"),
    }
    match message_command_with_options(
        "c",
        "b",
        "n",
        Some("t".to_string()),
        Some(MessageType::Article),
        vec![],
    ) {
        ClientCommand::MessageCreate { title, message_type, parent_id, .. } => {
            assert_eq!(title.as_deref(), Some("t"));
            assert_eq!(message_type, Some(MessageType::Article));
            assert!(parent_id.is_none());
        },
        _ => panic!("expected a message"),
    }
}

#[test]
fn malformed_frames_are_rejected() {
    assert!(decode_command_envelope("").is_none());
    assert!(decode_command_envelope("{}").is_none());
    assert!(decode_command_envelope("{\"id\":\"x\"").is_none());
    assert!(
        decode_command_envelope(
            "{\"id\":\"f\",\"type\":\"bogus\",\"data\":{},\"ts\":\"t\"}"
        )
        .is_none()
    );
}

#[test]
fn message_new_event_round_trips() {
    let env = WsEnvelope {
        id: "e-1".to_string(),
        payload: ServerEvent::MessageNew {
            channel_id: "general".to_string(),
            message: BaseMessage {
                id: "m-1".to_string(),
                author: UserRef::Uri("ofscp://example.com/users/bob".to_string()),
                message_type: MessageType::Message,
                title: None,
                content: Content {
                    text: "hello".to_string(),
                    mime: "text/markdown".to_string(),
                },
                attachments: vec![],
                created_at: "2024-01-01T00:00:00+00:00".to_string(),
                parent_id: Some("m-0".to_string()),
                parent_message_type: Some(MessageType::Memo),
            },
        },
        ts: "2024-01-01T00:00:02+00:00".to_string(),
        correlation_id: None,
    };
    let text = encode_event_envelope(&env);
    let back = decode_event_envelope(&text).expect("canonical event frame must decode");
    assert_eq!(back, env);
}

#[test]
fn presence_and_ack_events_round_trip() {
    let presence = WsEnvelope {
        id: "e-2".to_string(),
        payload: ServerEvent::PresenceUpdate {
            user_handle: "bob".to_string(),
            user_domain: "example.com".to_string(),
            presence: Presence {
                availability: Availability::Away,
                status: Some("brb".to_string()),
                last_seen: None,
            },
        },
        ts: "t".to_string(),
        correlation_id: None,
    };
    let text = encode_event_envelope(&presence);
    assert_eq!(decode_event_envelope(&text).expect("must decode"), presence);

    let ack = WsEnvelope {
        id: "e-3".to_string(),
        payload: ServerEvent::Ack {
            nonce: "n-77".to_string(),
            message_id: "m-9".to_string(),
        },
        ts: "t".to_string(),
        correlation_id: Some("corr".to_string()),
    };
    let text = encode_event_envelope(&ack);
    assert_eq!(decode_event_envelope(&text).expect("must decode"), ack);
}

#[test]
fn error_event_writes_null_correlation_id() {
    let err = WsEnvelope {
        id: "e-4".to_string(),
        payload: ServerEvent::Error {
            code: "rate_limited".to_string(),
            message: "slow down".to_string(),
            correlation_id: None,
        },
        ts: "t".to_string(),
        correlation_id: None,
    };
    let text = encode_event_envelope(&err);
    assert!(text.contains("\"correlation_id\":null"));
    assert_eq!(decode_event_envelope(&text).expect("must decode"), err);
}

#[test]
fn bodies_with_control_and_unicode_characters_round_trip() {
    let env = new_command_envelope(
        message_command("c", "tab\t, cr\r, nl\n, bell\u{7}, esc\u{1b}, accent é, kanji 字", "n-3"),
        None,
    );
    let text = encode_command_envelope(&env);
    // control characters must be escaped, never raw, in the frame text
    assert!(!text.contains('\u{7}'));
    assert!(!text.contains('\u{1b}'));
    assert!(text.contains("\\u0007"));
    assert!(text.contains("\\u001b"));
    let back = decode_command_envelope(&text).expect("canonical frame must decode");
    assert_eq!(back, env);
}

#[test]
fn zero_and_large_attachment_sizes_round_trip() {
    for size in [0u64, 7, 1024, u64::MAX] {
        let cmd = message_command_with_options(
            "c",
            "b",
            "n",
            None,
            None,
            vec![Attachment {
                id: "a".to_string(),
                mime: "application/octet-stream".to_string(),
                url: "u".to_string(),
                size,
            }],
        );
        let env = new_command_envelope(cmd, None);
        let text = encode_command_envelope(&env);
        let back = decode_command_envelope(&text).expect("canonical frame must decode");
        assert_eq!(back, env);
    }
}

#[test]
fn command_frames_with_null_correlation_id_are_rejected() {
    // outbound frames omit an absent correlation id; a frame spelling it
    // as null is not canonical and must not decode
    let text = "{\"id\":\"f-9\",\"type\":\"subscribe\",\"data\":{\"channelId\":\"c\"},\"ts\":\"t\",\"correlationId\":null}";
    assert!(decode_command_envelope(text).is_none());
}

#[test]
fn trailing_garbage_is_rejected() {
    let good = encode_command_envelope(&subscribe_envelope());
    let mut bad = good.clone();
    bad.push(' ');
    assert!(decode_command_envelope(&good).is_some());
    assert!(decode_command_envelope(&bad).is_none());
}

#[test]
fn ack_frame_text_uses_payload_field_names() {
    let ack = WsEnvelope {
        id: "e-9".to_string(),
        payload: ServerEvent::Ack {
            nonce: "n-1".to_string(),
            message_id: "m-1".to_string(),
        },
        ts: "t".to_string(),
        correlation_id: None,
    };
    assert_eq!(
        encode_event_envelope(&ack),
        "{\"id\":\"e-9\",\"type\":\"ack\",\"data\":{\"nonce\":\"n-1\",\"message_id\":\"m-1\"},\"ts\":\"t\"}"
    );
}

#[test]
fn message_create_frame_text_uses_payload_field_names() {
    let env = new_command_envelope(
        message_command_with_options(
            "general",
            "hi",
            "n-5",
            None,
            Some(MessageType::Memo),
            vec![],
        ),
        None,
    );
    let text = encode_command_envelope(&env);
    assert!(text.contains("\"data\":{\"channel_id\":\"general\",\"body\":\"hi\",\"nonce\":\"n-5\",\"message_type\":\"memo\"}"));
}
