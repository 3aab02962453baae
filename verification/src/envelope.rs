//! The wire envelope protocol: every frame is a JSON object carrying an
//! id, a type tag with its payload, a timestamp and an optional
//! correlation id. Outbound frames hold commands, inbound frames events.
//! The exact frame text is pinned down by the `spec_print_*` functions;
//! encoders produce it, decoders accept it and are proved its inverse,
//! with absent options omitted from the text rather than written as
//! `null` (the error payload's correlation id being the one documented
//! exception). Envelope keys and nested-object keys are camelCase
//! (`correlationId`, `createdAt`); the keys inside a tagged payload's
//! data object carry the payload fields' own names (`channel_id`,
//! `message_id`).

use vstd::prelude::*;
use crate::models::{Attachment, Availability, BaseMessage, Content, MessageType, Presence, UserRef};
use crate::text::{
    chars_eq, chars_to_string, lemma_add_assoc, lemma_add_empty, push_all, push_str_chars,
    seq_starts_with,
    spec_decimal, str_to_chars, u64_to_decimal,
};
use crate::wire::{emit_json_string, expect_lit, parse_json_string, parse_u64, spec_json_string};

verus! {

/// A wire frame: unique frame id, payload, send timestamp, and the
/// correlation id that links a request-shaped command to its reply.
#[derive(Clone, Debug, PartialEq)]
pub struct WsEnvelope<T> {
    pub id: String,
    pub payload: T,
    pub ts: String,
    pub correlation_id: Option<String>,
}

/// A command sent over a live connection.
#[derive(Clone, Debug, PartialEq)]
pub enum ClientCommand {
    Subscribe { channel_id: String },
    Unsubscribe { channel_id: String },
    MessageCreate {
        channel_id: String,
        body: String,
        nonce: String,
        title: Option<String>,
        message_type: Option<MessageType>,
        parent_id: Option<String>,
        attachments: Vec<Attachment>,
    },
}

/// An event received over a live connection.
#[derive(Clone, Debug, PartialEq)]
pub enum ServerEvent {
    MessageNew { channel_id: String, message: BaseMessage },
    PresenceUpdate { user_handle: String, user_domain: String, presence: Presence },
    Ack { nonce: String, message_id: String },
    Error { code: String, message: String, correlation_id: Option<String> },
}

/// The wire tag of a message kind.
pub open spec fn spec_mt_tag(m: MessageType) -> Seq<char> {
    match m {
        MessageType::Message => "message"@,
        MessageType::Memo => "memo"@,
        MessageType::Article => "article"@,
    }
}

fn mt_tag(m: &MessageType) -> (r: Vec<char>)
    ensures
        r@ == spec_mt_tag(*m),
{
    match m {
        MessageType::Message => str_to_chars("message"),
        MessageType::Memo => str_to_chars("memo"),
        MessageType::Article => str_to_chars("article"),
    }
}

/// The wire tag of an availability.
pub open spec fn spec_avail_tag(a: Availability) -> Seq<char> {
    match a {
        Availability::Online => "online"@,
        Availability::Away => "away"@,
        Availability::Dnd => "dnd"@,
        Availability::Offline => "offline"@,
    }
}

fn avail_tag(a: &Availability) -> (r: Vec<char>)
    ensures
        r@ == spec_avail_tag(*a),
{
    match a {
        Availability::Online => str_to_chars("online"),
        Availability::Away => str_to_chars("away"),
        Availability::Dnd => str_to_chars("dnd"),
        Availability::Offline => str_to_chars("offline"),
    }
}

/// The author field as written on the wire: the bare string of either
/// user reference form.
pub open spec fn spec_author_str(u: UserRef) -> Seq<char> {
    match u {
        UserRef::Uri(s) => s@,
        UserRef::Handle(s) => s@,
    }
}

/// One attachment object.
pub open spec fn spec_print_attachment(a: Attachment) -> Seq<char> {
    "{\"id\":"@ + spec_json_string(a.id@) + ",\"mime\":"@ + spec_json_string(a.mime@) + ",\"url\":"@
        + spec_json_string(a.url@) + ",\"size\":"@ + spec_decimal(a.size as int) + "}"@
}

/// The comma-separated items of an attachment array.
pub open spec fn spec_print_attachment_items(s: Seq<Attachment>) -> Seq<char>
    decreases s.len(),
{
    if s.len() == 0 {
        Seq::<char>::empty()
    } else if s.len() == 1 {
        spec_print_attachment(s[0])
    } else {
        spec_print_attachment_items(s.drop_last()) + ","@ + spec_print_attachment(s.last())
    }
}

/// A full attachment array.
pub open spec fn spec_print_attachments(s: Seq<Attachment>) -> Seq<char> {
    "["@ + spec_print_attachment_items(s) + "]"@
}

/// The wire tag of a command.
pub open spec fn spec_command_tag(c: ClientCommand) -> Seq<char> {
    match c {
        ClientCommand::Subscribe { .. } => "subscribe"@,
        ClientCommand::Unsubscribe { .. } => "unsubscribe"@,
        ClientCommand::MessageCreate { .. } => "message.create"@,
    }
}

/// A command's data object.
pub open spec fn spec_print_command_data(c: ClientCommand) -> Seq<char> {
    match c {
        ClientCommand::Subscribe { channel_id } => "{\"channel_id\":"@ + spec_json_string(
            channel_id@,
        ) + "}"@,
        ClientCommand::Unsubscribe { channel_id } => "{\"channel_id\":"@ + spec_json_string(
            channel_id@,
        ) + "}"@,
        ClientCommand::MessageCreate {
            channel_id,
            body,
            nonce,
            title,
            message_type,
            parent_id,
            attachments,
        } => "{\"channel_id\":"@ + spec_json_string(channel_id@) + ",\"body\":"@ + spec_json_string(
            body@,
        ) + ",\"nonce\":"@ + spec_json_string(nonce@) + (match title {
            Some(t) => ",\"title\":"@ + spec_json_string(t@),
            None => Seq::<char>::empty(),
        }) + (match message_type {
            Some(m) => ",\"message_type\":"@ + spec_json_string(spec_mt_tag(m)),
            None => Seq::<char>::empty(),
        }) + (match parent_id {
            Some(p) => ",\"parent_id\":"@ + spec_json_string(p@),
            None => Seq::<char>::empty(),
        }) + (if attachments@.len() == 0 {
            Seq::<char>::empty()
        } else {
            ",\"attachments\":"@ + spec_print_attachments(attachments@)
        }) + "}"@,
    }
}

/// A complete outbound frame. An absent correlation id is omitted from
/// the text entirely.
pub open spec fn spec_print_command_envelope(env: WsEnvelope<ClientCommand>) -> Seq<char> {
    "{\"id\":"@ + spec_json_string(env.id@) + ",\"type\":"@ + spec_json_string(
        spec_command_tag(env.payload),
    ) + ",\"data\":"@ + spec_print_command_data(env.payload) + ",\"ts\":"@ + spec_json_string(
        env.ts@,
    ) + (match env.correlation_id {
        Some(c) => ",\"correlationId\":"@ + spec_json_string(c@),
        None => Seq::<char>::empty(),
    }) + "}"@
}

/// A presence object.
pub open spec fn spec_print_presence(p: Presence) -> Seq<char> {
    "{\"availability\":"@ + spec_json_string(spec_avail_tag(p.availability)) + (match p.status {
        Some(s) => ",\"status\":"@ + spec_json_string(s@),
        None => Seq::<char>::empty(),
    }) + (match p.last_seen {
        Some(s) => ",\"lastSeen\":"@ + spec_json_string(s@),
        None => Seq::<char>::empty(),
    }) + "}"@
}

/// A message object as carried in a `message.new` event.
pub open spec fn spec_print_base_message(m: BaseMessage) -> Seq<char> {
    "{\"id\":"@ + spec_json_string(m.id@) + ",\"author\":"@ + spec_json_string(
        spec_author_str(m.author),
    ) + ",\"type\":"@ + spec_json_string(spec_mt_tag(m.message_type)) + (match m.title {
        Some(t) => ",\"title\":"@ + spec_json_string(t@),
        None => Seq::<char>::empty(),
    }) + ",\"content\":{\"text\":"@ + spec_json_string(m.content.text@) + ",\"mime\":"@
        + spec_json_string(m.content.mime@) + "},\"attachments\":"@ + spec_print_attachments(
        m.attachments@,
    ) + ",\"createdAt\":"@ + spec_json_string(m.created_at@) + (match m.parent_id {
        Some(p) => ",\"parentId\":"@ + spec_json_string(p@),
        None => Seq::<char>::empty(),
    }) + (match m.parent_message_type {
        Some(t) => ",\"parentMessageType\":"@ + spec_json_string(spec_mt_tag(t)),
        None => Seq::<char>::empty(),
    }) + "}"@
}

/// The wire tag of an event.
pub open spec fn spec_event_tag(e: ServerEvent) -> Seq<char> {
    match e {
        ServerEvent::MessageNew { .. } => "message.new"@,
        ServerEvent::PresenceUpdate { .. } => "presence.update"@,
        ServerEvent::Ack { .. } => "ack"@,
        ServerEvent::Error { .. } => "error"@,
    }
}

/// An event's data object. An error's absent correlation id is written
/// out as `null`, unlike the envelope's, which is omitted.
pub open spec fn spec_print_event_data(e: ServerEvent) -> Seq<char> {
    match e {
        ServerEvent::MessageNew { channel_id, message } => "{\"channel_id\":"@ + spec_json_string(
            channel_id@,
        ) + ",\"message\":"@ + spec_print_base_message(message) + "}"@,
        ServerEvent::PresenceUpdate { user_handle, user_domain, presence } => "{\"user_handle\":"@
            + spec_json_string(user_handle@) + ",\"user_domain\":"@ + spec_json_string(user_domain@)
            + ",\"presence\":"@ + spec_print_presence(presence) + "}"@,
        ServerEvent::Ack { nonce, message_id } => "{\"nonce\":"@ + spec_json_string(nonce@)
            + ",\"message_id\":"@ + spec_json_string(message_id@) + "}"@,
        ServerEvent::Error { code, message, correlation_id } => "{\"code\":"@ + spec_json_string(
            code@,
        ) + ",\"message\":"@ + spec_json_string(message@) + ",\"correlation_id\":"@ + (match
            correlation_id {
            Some(c) => spec_json_string(c@),
            None => "null"@,
        }) + "}"@,
    }
}

/// A complete inbound frame.
pub open spec fn spec_print_event_envelope(env: WsEnvelope<ServerEvent>) -> Seq<char> {
    "{\"id\":"@ + spec_json_string(env.id@) + ",\"type\":"@ + spec_json_string(
        spec_event_tag(env.payload),
    ) + ",\"data\":"@ + spec_print_event_data(env.payload) + ",\"ts\":"@ + spec_json_string(
        env.ts@,
    ) + (match env.correlation_id {
        Some(c) => ",\"correlationId\":"@ + spec_json_string(c@),
        None => Seq::<char>::empty(),
    }) + "}"@
}

/// The complete JSON string token for `s`, as a fresh vector.
fn json_string_vec(s: &String) -> (r: Vec<char>)
    ensures
        r@ == spec_json_string(s@),
{
    let chars = str_to_chars(s.as_str());
    let mut o: Vec<char> = Vec::new();
    emit_json_string(&mut o, &chars);
    proof {
        lemma_add_empty(spec_json_string(s@));
    }
    o
}

/// The complete JSON string token for the characters in `v`.
fn json_string_of_chars(v: &Vec<char>) -> (r: Vec<char>)
    ensures
        r@ == spec_json_string(v@),
{
    let mut o: Vec<char> = Vec::new();
    emit_json_string(&mut o, v);
    proof {
        lemma_add_empty(spec_json_string(v@));
    }
    o
}

fn print_attachment(a: &Attachment) -> (r: Vec<char>)
    ensures
        r@ == spec_print_attachment(*a),
{
    let mut out = str_to_chars("{\"id\":");
    let s1 = json_string_vec(&a.id);
    push_all(&mut out, &s1);
    push_str_chars(&mut out, ",\"mime\":");
    let s2 = json_string_vec(&a.mime);
    push_all(&mut out, &s2);
    push_str_chars(&mut out, ",\"url\":");
    let s3 = json_string_vec(&a.url);
    push_all(&mut out, &s3);
    push_str_chars(&mut out, ",\"size\":");
    let s4 = u64_to_decimal(a.size);
    push_all(&mut out, &s4);
    push_str_chars(&mut out, "}");
    out
}

fn print_attachments(s: &Vec<Attachment>) -> (r: Vec<char>)
    ensures
        r@ == spec_print_attachments(s@),
{
    let mut out = str_to_chars("[");
    let mut i: usize = 0;
    while i < s.len()
        invariant
            i <= s@.len(),
            out@ == "["@ + spec_print_attachment_items(s@.subrange(0, i as int)),
        decreases s@.len() - i,
    {
        let ghost items_i = spec_print_attachment_items(s@.subrange(0, i as int));
        let item = print_attachment(&s[i]);
        if i > 0 {
            push_str_chars(&mut out, ",");
            push_all(&mut out, &item);
            proof {
                assert(s@.subrange(0, i + 1).drop_last() =~= s@.subrange(0, i as int));
                assert(s@.subrange(0, i + 1).last() == s@[i as int]);
                assert(s@.subrange(0, i + 1).len() > 1);
                assert(spec_print_attachment_items(s@.subrange(0, i + 1)) == items_i + ","@
                    + spec_print_attachment(s@[i as int]));
                lemma_add_assoc("["@, items_i, ","@);
                lemma_add_assoc("["@ + items_i, ","@, spec_print_attachment(s@[i as int]));
                lemma_add_assoc("["@, items_i + ","@, spec_print_attachment(s@[i as int]));
            }
        } else {
            push_all(&mut out, &item);
            proof {
                assert(s@.subrange(0, 1) =~= seq![s@[0]]);
                assert(spec_print_attachment_items(s@.subrange(0, 1)) == spec_print_attachment(
                    s@[0],
                ));
                assert(items_i =~= Seq::<char>::empty());
                lemma_add_empty("["@);
                assert(("["@ + items_i) =~= "["@);
            }
        }
        i = i + 1;
    }
    push_str_chars(&mut out, "]");
    proof {
        assert(s@.subrange(0, s@.len() as int) =~= s@);
    }
    out
}

fn print_command_data(c: &ClientCommand) -> (r: Vec<char>)
    ensures
        r@ == spec_print_command_data(*c),
{
    match c {
        ClientCommand::Subscribe { channel_id } => {
            let mut out = str_to_chars("{\"channel_id\":");
            let s1 = json_string_vec(channel_id);
            push_all(&mut out, &s1);
            push_str_chars(&mut out, "}");
            out
        },
        ClientCommand::Unsubscribe { channel_id } => {
            let mut out = str_to_chars("{\"channel_id\":");
            let s1 = json_string_vec(channel_id);
            push_all(&mut out, &s1);
            push_str_chars(&mut out, "}");
            out
        },
        ClientCommand::MessageCreate {
            channel_id,
            body,
            nonce,
            title,
            message_type,
            parent_id,
            attachments,
        } => {
            let mut out = str_to_chars("{\"channel_id\":");
            let s1 = json_string_vec(channel_id);
            push_all(&mut out, &s1);
            push_str_chars(&mut out, ",\"body\":");
            let s2 = json_string_vec(body);
            push_all(&mut out, &s2);
            push_str_chars(&mut out, ",\"nonce\":");
            let s3 = json_string_vec(nonce);
            push_all(&mut out, &s3);
            let ghost flat = out@;
            let ghost m1 = match title {
                Some(t) => ",\"title\":"@ + spec_json_string(t@),
                None => Seq::<char>::empty(),
            };
            match title {
                Some(t) => {
                    push_str_chars(&mut out, ",\"title\":");
                    let st = json_string_vec(t);
                    push_all(&mut out, &st);
                    proof {
                        lemma_add_assoc(flat, ",\"title\":"@, spec_json_string(t@));
                    }
                },
                None => {
                    proof {
                        lemma_add_empty(flat);
                    }
                },
            }
            proof {
                assert(out@ == flat + m1);
            }
            let ghost m2 = match message_type {
                Some(m) => ",\"message_type\":"@ + spec_json_string(spec_mt_tag(*m)),
                None => Seq::<char>::empty(),
            };
            match message_type {
                Some(m) => {
                    push_str_chars(&mut out, ",\"message_type\":");
                    let tag = mt_tag(m);
                    let st = json_string_of_chars(&tag);
                    push_all(&mut out, &st);
                    proof {
                        lemma_add_assoc(flat + m1, ",\"message_type\":"@, spec_json_string(
                            spec_mt_tag(*m),
                        ));
                    }
                },
                None => {
                    proof {
                        lemma_add_empty(flat + m1);
                    }
                },
            }
            proof {
                assert(out@ == flat + m1 + m2);
            }
            let ghost m3 = match parent_id {
                Some(p) => ",\"parent_id\":"@ + spec_json_string(p@),
                None => Seq::<char>::empty(),
            };
            match parent_id {
                Some(p) => {
                    push_str_chars(&mut out, ",\"parent_id\":");
                    let st = json_string_vec(p);
                    push_all(&mut out, &st);
                    proof {
                        lemma_add_assoc(flat + m1 + m2, ",\"parent_id\":"@, spec_json_string(p@));
                    }
                },
                None => {
                    proof {
                        lemma_add_empty(flat + m1 + m2);
                    }
                },
            }
            proof {
                assert(out@ == flat + m1 + m2 + m3);
            }
            let ghost m4 = if attachments@.len() == 0 {
                Seq::<char>::empty()
            } else {
                ",\"attachments\":"@ + spec_print_attachments(attachments@)
            };
            if attachments.len() > 0 {
                push_str_chars(&mut out, ",\"attachments\":");
                let sa = print_attachments(attachments);
                push_all(&mut out, &sa);
                proof {
                    lemma_add_assoc(
                        flat + m1 + m2 + m3,
                        ",\"attachments\":"@,
                        spec_print_attachments(attachments@),
                    );
                }
            } else {
                proof {
                    lemma_add_empty(flat + m1 + m2 + m3);
                }
            }
            proof {
                assert(out@ == flat + m1 + m2 + m3 + m4);
            }
            push_str_chars(&mut out, "}");
            out
        },
    }
}

/// Serializes an outbound frame to its wire text.
pub fn encode_command_envelope(env: &WsEnvelope<ClientCommand>) -> (r: String)
    ensures
        r@ == spec_print_command_envelope(*env),
{
    let mut out = str_to_chars("{\"id\":");
    let s1 = json_string_vec(&env.id);
    push_all(&mut out, &s1);
    push_str_chars(&mut out, ",\"type\":");
    let tag = match &env.payload {
        ClientCommand::Subscribe { .. } => str_to_chars("subscribe"),
        ClientCommand::Unsubscribe { .. } => str_to_chars("unsubscribe"),
        ClientCommand::MessageCreate { .. } => str_to_chars("message.create"),
    };
    let s2 = json_string_of_chars(&tag);
    push_all(&mut out, &s2);
    push_str_chars(&mut out, ",\"data\":");
    let data = print_command_data(&env.payload);
    push_all(&mut out, &data);
    push_str_chars(&mut out, ",\"ts\":");
    let s3 = json_string_vec(&env.ts);
    push_all(&mut out, &s3);
    let ghost flat = out@;
    let ghost m1 = match &env.correlation_id {
        Some(c) => ",\"correlationId\":"@ + spec_json_string(c@),
        None => Seq::<char>::empty(),
    };
    match &env.correlation_id {
        Some(c) => {
            push_str_chars(&mut out, ",\"correlationId\":");
            let sc = json_string_vec(c);
            push_all(&mut out, &sc);
            proof {
                lemma_add_assoc(flat, ",\"correlationId\":"@, spec_json_string(c@));
            }
        },
        None => {
            proof {
                lemma_add_empty(flat);
            }
        },
    }
    proof {
        assert(out@ == flat + m1);
    }
    push_str_chars(&mut out, "}");
    chars_to_string(&out)
}

fn print_presence(p: &Presence) -> (r: Vec<char>)
    ensures
        r@ == spec_print_presence(*p),
{
    let mut out = str_to_chars("{\"availability\":");
    let tag = avail_tag(&p.availability);
    let s1 = json_string_of_chars(&tag);
    push_all(&mut out, &s1);
    let ghost flat = out@;
    let ghost m1 = match &p.status {
        Some(s) => ",\"status\":"@ + spec_json_string(s@),
        None => Seq::<char>::empty(),
    };
    match &p.status {
        Some(s) => {
            push_str_chars(&mut out, ",\"status\":");
            let st = json_string_vec(s);
            push_all(&mut out, &st);
            proof {
                lemma_add_assoc(flat, ",\"status\":"@, spec_json_string(s@));
            }
        },
        None => {
            proof {
                lemma_add_empty(flat);
            }
        },
    }
    proof {
        assert(out@ == flat + m1);
    }
    let ghost m2 = match &p.last_seen {
        Some(s) => ",\"lastSeen\":"@ + spec_json_string(s@),
        None => Seq::<char>::empty(),
    };
    match &p.last_seen {
        Some(s) => {
            push_str_chars(&mut out, ",\"lastSeen\":");
            let st = json_string_vec(s);
            push_all(&mut out, &st);
            proof {
                lemma_add_assoc(flat + m1, ",\"lastSeen\":"@, spec_json_string(s@));
            }
        },
        None => {
            proof {
                lemma_add_empty(flat + m1);
            }
        },
    }
    proof {
        assert(out@ == flat + m1 + m2);
    }
    push_str_chars(&mut out, "}");
    out
}

fn print_base_message(m: &BaseMessage) -> (r: Vec<char>)
    ensures
        r@ == spec_print_base_message(*m),
{
    let mut out = str_to_chars("{\"id\":");
    let s1 = json_string_vec(&m.id);
    push_all(&mut out, &s1);
    push_str_chars(&mut out, ",\"author\":");
    let author = match &m.author {
        UserRef::Uri(s) => json_string_vec(s),
        UserRef::Handle(s) => json_string_vec(s),
    };
    push_all(&mut out, &author);
    push_str_chars(&mut out, ",\"type\":");
    let tag = mt_tag(&m.message_type);
    let s2 = json_string_of_chars(&tag);
    push_all(&mut out, &s2);
    let ghost flat = out@;
    let ghost m1 = match &m.title {
        Some(t) => ",\"title\":"@ + spec_json_string(t@),
        None => Seq::<char>::empty(),
    };
    match &m.title {
        Some(t) => {
            push_str_chars(&mut out, ",\"title\":");
            let st = json_string_vec(t);
            push_all(&mut out, &st);
            proof {
                lemma_add_assoc(flat, ",\"title\":"@, spec_json_string(t@));
            }
        },
        None => {
            proof {
                lemma_add_empty(flat);
            }
        },
    }
    proof {
        assert(out@ == flat + m1);
    }
    push_str_chars(&mut out, ",\"content\":{\"text\":");
    let s3 = json_string_vec(&m.content.text);
    push_all(&mut out, &s3);
    push_str_chars(&mut out, ",\"mime\":");
    let s4 = json_string_vec(&m.content.mime);
    push_all(&mut out, &s4);
    push_str_chars(&mut out, "},\"attachments\":");
    let sa = print_attachments(&m.attachments);
    push_all(&mut out, &sa);
    push_str_chars(&mut out, ",\"createdAt\":");
    let s5 = json_string_vec(&m.created_at);
    push_all(&mut out, &s5);
    let ghost flat2 = out@;
    let ghost m2 = match &m.parent_id {
        Some(p) => ",\"parentId\":"@ + spec_json_string(p@),
        None => Seq::<char>::empty(),
    };
    match &m.parent_id {
        Some(p) => {
            push_str_chars(&mut out, ",\"parentId\":");
            let st = json_string_vec(p);
            push_all(&mut out, &st);
            proof {
                lemma_add_assoc(flat2, ",\"parentId\":"@, spec_json_string(p@));
            }
        },
        None => {
            proof {
                lemma_add_empty(flat2);
            }
        },
    }
    proof {
        assert(out@ == flat2 + m2);
    }
    let ghost m3 = match &m.parent_message_type {
        Some(t) => ",\"parentMessageType\":"@ + spec_json_string(spec_mt_tag(*t)),
        None => Seq::<char>::empty(),
    };
    match &m.parent_message_type {
        Some(t) => {
            push_str_chars(&mut out, ",\"parentMessageType\":");
            let ptag = mt_tag(t);
            let st = json_string_of_chars(&ptag);
            push_all(&mut out, &st);
            proof {
                lemma_add_assoc(flat2 + m2, ",\"parentMessageType\":"@, spec_json_string(
                    spec_mt_tag(*t),
                ));
            }
        },
        None => {
            proof {
                lemma_add_empty(flat2 + m2);
            }
        },
    }
    proof {
        assert(out@ == flat2 + m2 + m3);
    }
    push_str_chars(&mut out, "}");
    out
}

fn print_event_data(e: &ServerEvent) -> (r: Vec<char>)
    ensures
        r@ == spec_print_event_data(*e),
{
    match e {
        ServerEvent::MessageNew { channel_id, message } => {
            let mut out = str_to_chars("{\"channel_id\":");
            let s1 = json_string_vec(channel_id);
            push_all(&mut out, &s1);
            push_str_chars(&mut out, ",\"message\":");
            let sm = print_base_message(message);
            push_all(&mut out, &sm);
            push_str_chars(&mut out, "}");
            out
        },
        ServerEvent::PresenceUpdate { user_handle, user_domain, presence } => {
            let mut out = str_to_chars("{\"user_handle\":");
            let s1 = json_string_vec(user_handle);
            push_all(&mut out, &s1);
            push_str_chars(&mut out, ",\"user_domain\":");
            let s2 = json_string_vec(user_domain);
            push_all(&mut out, &s2);
            push_str_chars(&mut out, ",\"presence\":");
            let sp = print_presence(presence);
            push_all(&mut out, &sp);
            push_str_chars(&mut out, "}");
            out
        },
        ServerEvent::Ack { nonce, message_id } => {
            let mut out = str_to_chars("{\"nonce\":");
            let s1 = json_string_vec(nonce);
            push_all(&mut out, &s1);
            push_str_chars(&mut out, ",\"message_id\":");
            let s2 = json_string_vec(message_id);
            push_all(&mut out, &s2);
            push_str_chars(&mut out, "}");
            out
        },
        ServerEvent::Error { code, message, correlation_id } => {
            let mut out = str_to_chars("{\"code\":");
            let s1 = json_string_vec(code);
            push_all(&mut out, &s1);
            push_str_chars(&mut out, ",\"message\":");
            let s2 = json_string_vec(message);
            push_all(&mut out, &s2);
            push_str_chars(&mut out, ",\"correlation_id\":");
            match correlation_id {
                Some(c) => {
                    let sc = json_string_vec(c);
                    push_all(&mut out, &sc);
                },
                None => {
                    push_str_chars(&mut out, "null");
                },
            }
            push_str_chars(&mut out, "}");
            out
        },
    }
}

/// Serializes an inbound-format frame to its wire text; the form a
/// provider emits and this client parses.
pub fn encode_event_envelope(env: &WsEnvelope<ServerEvent>) -> (r: String)
    ensures
        r@ == spec_print_event_envelope(*env),
{
    let mut out = str_to_chars("{\"id\":");
    let s1 = json_string_vec(&env.id);
    push_all(&mut out, &s1);
    push_str_chars(&mut out, ",\"type\":");
    let tag = match &env.payload {
        ServerEvent::MessageNew { .. } => str_to_chars("message.new"),
        ServerEvent::PresenceUpdate { .. } => str_to_chars("presence.update"),
        ServerEvent::Ack { .. } => str_to_chars("ack"),
        ServerEvent::Error { .. } => str_to_chars("error"),
    };
    let s2 = json_string_of_chars(&tag);
    push_all(&mut out, &s2);
    push_str_chars(&mut out, ",\"data\":");
    let data = print_event_data(&env.payload);
    push_all(&mut out, &data);
    push_str_chars(&mut out, ",\"ts\":");
    let s3 = json_string_vec(&env.ts);
    push_all(&mut out, &s3);
    let ghost flat = out@;
    let ghost m1 = match &env.correlation_id {
        Some(c) => ",\"correlationId\":"@ + spec_json_string(c@),
        None => Seq::<char>::empty(),
    };
    match &env.correlation_id {
        Some(c) => {
            push_str_chars(&mut out, ",\"correlationId\":");
            let sc = json_string_vec(c);
            push_all(&mut out, &sc);
            proof {
                lemma_add_assoc(flat, ",\"correlationId\":"@, spec_json_string(c@));
            }
        },
        None => {
            proof {
                lemma_add_empty(flat);
            }
        },
    }
    proof {
        assert(out@ == flat + m1);
    }
    push_str_chars(&mut out, "}");
    chars_to_string(&out)
}


/// Wraps a command in a fresh envelope, stamping a new frame id and the
/// current send time.
pub fn new_command_envelope(payload: ClientCommand, correlation_id: Option<String>) -> (r:
    WsEnvelope<ClientCommand>)
    ensures
        r.payload == payload,
        r.correlation_id == correlation_id,
        r.id@.len() == 36,
{
    WsEnvelope {
        id: crate::crypto::new_uuid(),
        payload,
        ts: crate::crypto::now_rfc3339(),
        correlation_id,
    }
}

/// A subscription to a channel's live events.
pub fn subscribe_command(channel_id: &str) -> (r: ClientCommand)
    ensures
        r matches ClientCommand::Subscribe { channel_id: c } && c@ == channel_id@,
{
    ClientCommand::Subscribe { channel_id: channel_id.to_owned() }
}

/// The end of a channel subscription.
pub fn unsubscribe_command(channel_id: &str) -> (r: ClientCommand)
    ensures
        r matches ClientCommand::Unsubscribe { channel_id: c } && c@ == channel_id@,
{
    ClientCommand::Unsubscribe { channel_id: channel_id.to_owned() }
}

/// A plain message send: the nonce is the idempotency key the server's
/// acknowledgement will carry back.
pub fn message_command(channel_id: &str, body: &str, nonce: &str) -> (r: ClientCommand)
    ensures
        r matches ClientCommand::MessageCreate {
            channel_id: c,
            body: b,
            nonce: n,
            title,
            message_type,
            parent_id,
            attachments,
        } && c@ == channel_id@ && b@ == body@ && n@ == nonce@ && title is None && message_type
            is None && parent_id is None && attachments@.len() == 0,
{
    ClientCommand::MessageCreate {
        channel_id: channel_id.to_owned(),
        body: body.to_owned(),
        nonce: nonce.to_owned(),
        title: None,
        message_type: None,
        parent_id: None,
        attachments: Vec::new(),
    }
}

/// A message send with an optional title, kind and attachments.
pub fn message_command_with_options(
    channel_id: &str,
    body: &str,
    nonce: &str,
    title: Option<String>,
    message_type: Option<MessageType>,
    attachments: Vec<Attachment>,
) -> (r: ClientCommand)
    ensures
        r == (ClientCommand::MessageCreate {
            channel_id: r->MessageCreate_channel_id,
            body: r->MessageCreate_body,
            nonce: r->MessageCreate_nonce,
            title,
            message_type,
            parent_id: None,
            attachments,
        }),
        r->MessageCreate_channel_id@ == channel_id@,
        r->MessageCreate_body@ == body@,
        r->MessageCreate_nonce@ == nonce@,
{
    ClientCommand::MessageCreate {
        channel_id: channel_id.to_owned(),
        body: body.to_owned(),
        nonce: nonce.to_owned(),
        title,
        message_type,
        parent_id: None,
        attachments,
    }
}

/// A reply to an existing message.
pub fn reply_command(
    channel_id: &str,
    body: &str,
    nonce: &str,
    parent_id: &str,
    message_type: Option<MessageType>,
    attachments: Vec<Attachment>,
) -> (r: ClientCommand)
    ensures
        r == (ClientCommand::MessageCreate {
            channel_id: r->MessageCreate_channel_id,
            body: r->MessageCreate_body,
            nonce: r->MessageCreate_nonce,
            title: None,
            message_type,
            parent_id: r->MessageCreate_parent_id,
            attachments,
        }),
        r->MessageCreate_channel_id@ == channel_id@,
        r->MessageCreate_body@ == body@,
        r->MessageCreate_nonce@ == nonce@,
        r->MessageCreate_parent_id matches Some(pp) && pp@ == parent_id@,
{
    ClientCommand::MessageCreate {
        channel_id: channel_id.to_owned(),
        body: body.to_owned(),
        nonce: nonce.to_owned(),
        title: None,
        message_type,
        parent_id: Some(parent_id.to_owned()),
        attachments,
    }
}


fn mt_from_tag(tag: &Vec<char>) -> (r: Option<MessageType>)
    ensures
        r matches Some(m) ==> spec_mt_tag(m) == tag@,
        r is None ==> tag@ != "message"@ && tag@ != "memo"@ && tag@ != "article"@,
        forall|m: MessageType| tag@ == spec_mt_tag(m) ==> r == Some(m),
{
    proof {
        reveal_strlit("message");
        reveal_strlit("memo");
        reveal_strlit("article");
        assert("message"@[0] == 'm' && "article"@[0] == 'a');
    }
    let message = str_to_chars("message");
    let memo = str_to_chars("memo");
    let article = str_to_chars("article");
    if chars_eq(tag, &message) {
        Some(MessageType::Message)
    } else if chars_eq(tag, &memo) {
        Some(MessageType::Memo)
    } else if chars_eq(tag, &article) {
        Some(MessageType::Article)
    } else {
        None
    }
}

/// A prefix cannot start at `q` when the text there visibly starts with
/// something that differs at index `idx`.
proof fn lemma_not_started(w: Seq<char>, q: int, key: Seq<char>, other: Seq<char>, idx: int)
    requires
        0 <= q <= w.len(),
        seq_starts_with(w.skip(q), other),
        0 <= idx < key.len(),
        idx < other.len(),
        key[idx] != other[idx],
    ensures
        !(q + key.len() <= w.len() && w.subrange(q, q + key.len()) == key),
{
    crate::text::lemma_prefix_window(w, q, other);
    if q + key.len() <= w.len() && w.subrange(q, q + key.len()) == key {
        assert(w.subrange(q, q + key.len())[idx] == w[q + idx]);
        assert(w.subrange(q, q + other.len())[idx] == w[q + idx]);
    }
}

/// `expect_lit` must fail here: the key is not at `q`.
pub open spec fn lit_absent(w: Seq<char>, q: int, key: Seq<char>) -> bool {
    !(q + key.len() <= w.len() && w.subrange(q, q + key.len()) == key)
}

/// The hypothesis that the text at `i` carries `key` and then the JSON
/// string token of `sv`.
pub open spec fn field_at(w: Seq<char>, i: int, key: Seq<char>, sv: Seq<char>) -> bool {
    &&& 0 <= i <= w.len()
    &&& seq_starts_with(w.skip(i), key)
    &&& seq_starts_with(w.skip(i + key.len()), spec_json_string(sv))
}

fn parse_field_string(v: &Vec<char>, i: usize, key: &str) -> (r: Option<(String, usize)>)
    requires
        i <= v@.len(),
    ensures
        r matches Some((_, j)) ==> i < j <= v@.len(),
        r matches Some((out, j2)) ==> i + key@.len() <= v@.len() && v@.subrange(
            i as int,
            i + key@.len(),
        ) == key@,
        forall|sv: Seq<char>| #[trigger] field_at(v@, i as int, key@, sv) ==> (r matches Some(
            (out, j),
        ) && out@ == sv && j == i + key@.len() + spec_json_string(sv).len()),
{
    let j = match expect_lit(v, i, key) {
        Some(j) => j,
        None => {
            proof {
                assert forall|sv: Seq<char>| #[trigger] field_at(
                    v@,
                    i as int,
                    key@,
                    sv,
                ) implies false by {
                    crate::text::lemma_prefix_window(v@, i as int, key@);
                }
            }
            return None;
        },
    };
    let r2 = parse_json_string(v, j);
    proof {
        assert forall|sv: Seq<char>| #[trigger] field_at(v@, i as int, key@, sv) implies
            crate::wire::spec_parse_string(v@, j as int) == Some::<(Seq<char>, int)>(
            (sv, i + key@.len() + spec_json_string(sv).len()),
        ) by {
            crate::text::lemma_prefix_window(v@, i as int, key@);
            crate::text::lemma_prefix_window(v@, j as int, spec_json_string(sv));
            crate::wire::lemma_parse_string_inverts(v@, j as int, sv);
        }
    }
    let (val, j2) = match r2 {
        Some(p) => p,
        None => {
            return None;
        },
    };
    if j2 <= i {
        return None;
    }
    Some((chars_to_string(&val), j2))
}

/// The hypothesis that the text at `i` carries the printed form of
/// attachment `a`.
pub open spec fn attachment_at(w: Seq<char>, i: int, a: Attachment) -> bool {
    0 <= i <= w.len() && seq_starts_with(w.skip(i), spec_print_attachment(a))
}

/// Where each piece of a printed attachment lies in the surrounding text.
proof fn lemma_attachment_anatomy(w: Seq<char>, i: int, a: Attachment)
    requires
        attachment_at(w, i, a),
    ensures
        ({
            let p1 = i + "{\"id\":"@.len() + spec_json_string(a.id@).len();
            let p2 = p1 + ",\"mime\":"@.len() + spec_json_string(a.mime@).len();
            let p3 = p2 + ",\"url\":"@.len() + spec_json_string(a.url@).len();
            let p4 = p3 + ",\"size\":"@.len();
            let p5 = p4 + spec_decimal(a.size as int).len();
            &&& field_at(w, i, "{\"id\":"@, a.id@)
            &&& field_at(w, p1, ",\"mime\":"@, a.mime@)
            &&& field_at(w, p2, ",\"url\":"@, a.url@)
            &&& p4 <= w.len() && w.subrange(p3, p4) == ",\"size\":"@
            &&& p5 + 1 <= w.len() && w.subrange(p4, p5) == spec_decimal(a.size as int)
            &&& !crate::wire::is_digit(w[p5])
            &&& w.subrange(p5, p5 + 1) == "}"@
            &&& p5 + 1 == i + spec_print_attachment(a).len()
        }),
{
    let k1 = "{\"id\":"@;
    let j1 = spec_json_string(a.id@);
    let k2 = ",\"mime\":"@;
    let j2 = spec_json_string(a.mime@);
    let k3 = ",\"url\":"@;
    let j3 = spec_json_string(a.url@);
    let k4 = ",\"size\":"@;
    let dc = spec_decimal(a.size as int);
    let cb = "}"@;
    let pr = spec_print_attachment(a);
    lemma_add_assoc(k1 + j1 + k2 + j2 + k3 + j3 + k4, dc, cb);
    lemma_add_assoc(k1 + j1 + k2 + j2 + k3 + j3, k4, dc + cb);
    lemma_add_assoc(k1 + j1 + k2 + j2 + k3, j3, k4 + (dc + cb));
    lemma_add_assoc(k1 + j1 + k2 + j2, k3, j3 + (k4 + (dc + cb)));
    lemma_add_assoc(k1 + j1 + k2, j2, k3 + (j3 + (k4 + (dc + cb))));
    lemma_add_assoc(k1 + j1, k2, j2 + (k3 + (j3 + (k4 + (dc + cb)))));
    lemma_add_assoc(k1, j1, k2 + (j2 + (k3 + (j3 + (k4 + (dc + cb))))));
    assert(pr == k1 + (j1 + (k2 + (j2 + (k3 + (j3 + (k4 + (dc + cb))))))));
    let x0 = w.skip(i);
    crate::text::lemma_peel(x0, k1, j1 + (k2 + (j2 + (k3 + (j3 + (k4 + (dc + cb)))))));
    crate::text::lemma_prefix_window(w, i, k1);
    let q1 = i + k1.len();
    crate::text::lemma_peel(w.skip(q1), j1, k2 + (j2 + (k3 + (j3 + (k4 + (dc + cb))))));
    crate::text::lemma_prefix_window(w, q1, j1);
    let p1 = q1 + j1.len();
    crate::text::lemma_peel(w.skip(p1), k2, j2 + (k3 + (j3 + (k4 + (dc + cb)))));
    crate::text::lemma_prefix_window(w, p1, k2);
    let q2 = p1 + k2.len();
    crate::text::lemma_peel(w.skip(q2), j2, k3 + (j3 + (k4 + (dc + cb))));
    crate::text::lemma_prefix_window(w, q2, j2);
    let p2 = q2 + j2.len();
    crate::text::lemma_peel(w.skip(p2), k3, j3 + (k4 + (dc + cb)));
    crate::text::lemma_prefix_window(w, p2, k3);
    let q3 = p2 + k3.len();
    crate::text::lemma_peel(w.skip(q3), j3, k4 + (dc + cb));
    crate::text::lemma_prefix_window(w, q3, j3);
    let p3 = q3 + j3.len();
    crate::text::lemma_peel(w.skip(p3), k4, dc + cb);
    crate::text::lemma_prefix_window(w, p3, k4);
    let p4 = p3 + k4.len();
    crate::text::lemma_peel(w.skip(p4), dc, cb);
    crate::text::lemma_prefix_window(w, p4, dc);
    let p5 = p4 + dc.len();
    crate::text::lemma_prefix_window(w, p5, cb);
    reveal_strlit("}");
    assert(w.subrange(p5, p5 + 1)[0] == w[p5]);
    assert(w[p5] == '}');
}

fn parse_attachment_at(v: &Vec<char>, i: usize) -> (r: Option<(Attachment, usize)>)
    requires
        i <= v@.len(),
    ensures
        r matches Some((_, j)) ==> i < j <= v@.len(),
        r matches Some((_, j)) ==> i + "{\"id\":"@.len() <= v@.len() && v@.subrange(
            i as int,
            i + "{\"id\":"@.len(),
        ) == "{\"id\":"@,
        forall|a: Attachment| #[trigger] attachment_at(v@, i as int, a) ==> (r matches Some(
            (out, j),
        ) && crate::ledger::attachment_like(out, a) && j == i + spec_print_attachment(a).len()),
{
    proof {
        assert forall|a: Attachment| attachment_at(v@, i as int, a) implies field_at(
            v@,
            i as int,
            "{\"id\":"@,
            a.id@,
        ) by {
            lemma_attachment_anatomy(v@, i as int, a);
        }
    }
    let r1 = parse_field_string(v, i, "{\"id\":");
    let (id, j) = match r1 {
        Some(p) => p,
        None => {
            return None;
        },
    };
    proof {
        assert forall|a: Attachment| attachment_at(v@, i as int, a) implies field_at(
            v@,
            j as int,
            ",\"mime\":"@,
            a.mime@,
        ) && id@ == a.id@ by {
            lemma_attachment_anatomy(v@, i as int, a);
        }
    }
    let r2 = parse_field_string(v, j, ",\"mime\":");
    let (mime, j) = match r2 {
        Some(p) => p,
        None => {
            return None;
        },
    };
    proof {
        assert forall|a: Attachment| attachment_at(v@, i as int, a) implies field_at(
            v@,
            j as int,
            ",\"url\":"@,
            a.url@,
        ) && mime@ == a.mime@ by {
            lemma_attachment_anatomy(v@, i as int, a);
        }
    }
    let r3 = parse_field_string(v, j, ",\"url\":");
    let (url, j) = match r3 {
        Some(p) => p,
        None => {
            return None;
        },
    };
    proof {
        assert forall|a: Attachment| attachment_at(v@, i as int, a) implies url@ == a.url@ && {
            let p3 = i + spec_print_attachment(a).len() - 1 - spec_decimal(a.size as int).len()
                - ",\"size\":"@.len();
            j == p3 && v@.subrange(p3, p3 + ",\"size\":"@.len()) == ",\"size\":"@ && p3
                + ",\"size\":"@.len() <= v@.len()
        } by {
            lemma_attachment_anatomy(v@, i as int, a);
        }
    }
    let r4 = expect_lit(v, j, ",\"size\":");
    let j = match r4 {
        Some(j2) => j2,
        None => {
            return None;
        },
    };
    proof {
        assert forall|a: Attachment| attachment_at(v@, i as int, a) implies
            crate::wire::spec_parse_u64(v@, j as int) == Some::<(int, int)>(
            (a.size as int, i + spec_print_attachment(a).len() - 1),
        ) by {
            lemma_attachment_anatomy(v@, i as int, a);
            crate::wire::lemma_parse_u64_inverts(v@, j as int, a.size);
        }
    }
    let r5 = parse_u64(v, j);
    let (size, j) = match r5 {
        Some(p) => p,
        None => {
            return None;
        },
    };
    proof {
        assert forall|a: Attachment| attachment_at(v@, i as int, a) implies size == a.size && {
            let p5 = i + spec_print_attachment(a).len() - 1;
            j == p5 && v@.subrange(p5, p5 + 1) == "}"@ && p5 + 1 <= v@.len()
        } by {
            lemma_attachment_anatomy(v@, i as int, a);
        }
    }
    let r6 = expect_lit(v, j, "}");
    let j = match r6 {
        Some(j2) => j2,
        None => {
            proof {
                assert forall|a: Attachment| attachment_at(v@, i as int, a) implies false by {
                    lemma_attachment_anatomy(v@, i as int, a);
                    reveal_strlit("}");
                }
            }
            return None;
        },
    };
    if j <= i {
        proof {
            assert forall|a: Attachment| attachment_at(v@, i as int, a) implies false by {
                lemma_attachment_anatomy(v@, i as int, a);
            }
        }
        return None;
    }
    proof {
        reveal_strlit("}");
    }
    Some((Attachment { id, mime, url, size }, j))
}

/// Attachment items decompose from the front as well: the first item,
/// then a comma-separated remainder.
proof fn lemma_items_cons(s: Seq<Attachment>)
    requires
        s.len() > 0,
    ensures
        spec_print_attachment_items(s) == spec_print_attachment(s[0]) + (if s.len() == 1 {
            Seq::<char>::empty()
        } else {
            ","@ + spec_print_attachment_items(s.skip(1))
        }),
    decreases s.len(),
{
    if s.len() == 1 {
        lemma_add_empty(spec_print_attachment(s[0]));
    } else {
        let dl = s.drop_last();
        lemma_items_cons(dl);
        assert(dl[0] == s[0]);
        if s.len() == 2 {
            assert(dl =~= seq![s[0]]);
            assert(s.skip(1) =~= seq![s[1]]);
            assert(spec_print_attachment_items(s) == spec_print_attachment_items(dl) + ","@
                + spec_print_attachment(s.last()));
            assert(s.skip(1)[0] == s[1] && s[1] == s.last());
            lemma_add_empty(spec_print_attachment(s[0]));
            lemma_add_assoc(spec_print_attachment(s[0]), ","@, spec_print_attachment(s[1]));
        } else {
            assert(s.skip(1).drop_last() =~= dl.skip(1));
            assert(s.skip(1).len() > 1);
            assert(s.skip(1).last() == s.last());
            assert(s.skip(1)[0] == s[1] && dl.skip(1)[0] == s[1]);
            assert(spec_print_attachment_items(s.skip(1)) == spec_print_attachment_items(
                dl.skip(1),
            ) + ","@ + spec_print_attachment(s.last()));
            // reassociate both sides onto the same spine
            let a = spec_print_attachment(s[0]);
            let t = spec_print_attachment_items(dl.skip(1));
            let z = spec_print_attachment(s.last());
            assert(spec_print_attachment_items(dl) == a + (","@ + t));
            assert(spec_print_attachment_items(s) == (a + (","@ + t)) + ","@ + z);
            assert(three_chain_eq(a, t, z)) by {
                lemma_add_assoc(a, ","@ + t, ","@);
                lemma_add_assoc(","@, t, ","@);
                lemma_add_assoc(a, (","@ + t) + ","@, z);
                lemma_add_assoc(a, ","@ + (t + ","@), z);
                lemma_add_assoc(","@ + t, ","@, z);
                lemma_add_assoc(","@, t, ","@ + z);
                lemma_add_assoc(t, ","@, z);
                lemma_add_assoc(","@, t + ","@, z);
            }
        }
    }
}

/// The two spellings of a three-item chain agree.
spec fn three_chain_eq(a: Seq<char>, t: Seq<char>, z: Seq<char>) -> bool {
    ((a + (","@ + t)) + ","@ + z) == a + (","@ + ((t + ","@) + z))
}

/// The hypothesis that the text at `i` carries the printed form of the
/// attachment array `s`.
pub open spec fn attachments_array_at(w: Seq<char>, i: int, s: Seq<Attachment>) -> bool {
    0 <= i <= w.len() && seq_starts_with(w.skip(i), spec_print_attachments(s))
}

/// Element-wise view equality of attachment vectors.
pub open spec fn attachments_like(out: Seq<Attachment>, s: Seq<Attachment>) -> bool {
    out.len() == s.len() && forall|m: int|
        0 <= m < s.len() ==> crate::ledger::attachment_like(#[trigger] out[m], s[m])
}

fn parse_attachments_at(v: &Vec<char>, i: usize) -> (r: Option<(Vec<Attachment>, usize)>)
    requires
        i <= v@.len(),
    ensures
        r matches Some((_, j)) ==> i < j <= v@.len(),
        forall|s: Seq<Attachment>| #[trigger] attachments_array_at(v@, i as int, s) ==> (r matches
            Some((out, j)) && attachments_like(out@, s) && j == i + spec_print_attachments(
            s,
        ).len()),
{
    let r0 = expect_lit(v, i, "[");
    let mut j = match r0 {
        Some(j) => j,
        None => {
            proof {
                assert forall|s: Seq<Attachment>| attachments_array_at(
                    v@,
                    i as int,
                    s,
                ) implies false by {
                    lemma_array_anatomy_open(v@, i as int, s);
                }
            }
            return None;
        },
    };
    proof {
        reveal_strlit("[");
        assert forall|s: Seq<Attachment>| attachments_array_at(v@, i as int, s) implies
            seq_starts_with(
            v@.skip(j as int),
            spec_print_attachment_items(s) + "]"@,
        ) && j + spec_print_attachment_items(s).len() + 1 == i + spec_print_attachments(s).len()
            by {
            lemma_array_anatomy_open(v@, i as int, s);
        }
    }
    let mut out: Vec<Attachment> = Vec::new();
    let r1 = expect_lit(v, j, "]");
    match r1 {
        Some(j2) => {
            if j2 <= i {
                return None;
            }
            proof {
                assert forall|s: Seq<Attachment>| attachments_array_at(v@, i as int, s) implies
                    s.len() == 0 && j2 == i + spec_print_attachments(s).len() by {
                    if s.len() > 0 {
                        lemma_items_cons(s);
                        crate::text::lemma_peel(
                            v@.skip(j as int),
                            spec_print_attachment(s[0]) + (if s.len() == 1 {
                                Seq::<char>::empty()
                            } else {
                                ","@ + spec_print_attachment_items(s.skip(1))
                            }),
                            "]"@,
                        );
                        assert(seq_starts_with(v@.skip(j as int), spec_print_attachment_items(s)));
                        crate::text::lemma_peel(
                            v@.skip(j as int),
                            spec_print_attachment(s[0]),
                            if s.len() == 1 {
                                Seq::<char>::empty()
                            } else {
                                ","@ + spec_print_attachment_items(s.skip(1))
                            },
                        );
                        lemma_attachment_anatomy(v@, j as int, s[0]);
                        crate::text::lemma_prefix_window(v@, j as int, "{\"id\":"@);
                        reveal_strlit("{\"id\":");
                        reveal_strlit("]");
                        assert(v@.subrange(j as int, j + "{\"id\":"@.len())[0] == v@[j as int]);
                        assert(v@.subrange(j as int, j + "]"@.len())[0] == v@[j as int]);
                    }
                    lemma_add_empty("]"@);
                    assert(spec_print_attachment_items(s).len() == 0);
                }
            }
            return Some((out, j2));
        },
        None => {},
    }
    proof {
        assert forall|s: Seq<Attachment>| attachments_array_at(v@, i as int, s) implies s.len()
            > 0 by {
            if s.len() == 0 {
                assert(spec_print_attachment_items(s).len() == 0);
                assert(seq_starts_with(v@.skip(j as int), Seq::<char>::empty() + "]"@));
                lemma_add_empty("]"@);
                crate::text::lemma_prefix_window(v@, j as int, "]"@);
            }
        }
    }
    let ghost mut k: int = 0;
    proof {
        assert forall|s: Seq<Attachment>| attachments_array_at(v@, i as int, s) implies
            seq_starts_with(
            v@.skip(j as int),
            spec_print_attachment_items(s.skip(0)) + "]"@,
        ) && j + spec_print_attachment_items(s.skip(0)).len() + 1 == i + spec_print_attachments(
            s,
        ).len() by {
            assert(s.skip(0) =~= s);
        }
    }
    loop
        invariant
            i < j <= v@.len(),
            k == out@.len(),
            forall|s: Seq<Attachment>| #[trigger] attachments_array_at(v@, i as int, s) ==> {
                &&& k < s.len()
                &&& forall|m: int|
                    0 <= m < k ==> crate::ledger::attachment_like(#[trigger] out@[m], s[m])
                &&& seq_starts_with(
                    v@.skip(j as int),
                    spec_print_attachment_items(s.skip(k)) + "]"@,
                )
                &&& j + spec_print_attachment_items(s.skip(k)).len() + 1 == i
                    + spec_print_attachments(s).len()
            },
        decreases v@.len() - j,
    {
        proof {
            assert forall|s: Seq<Attachment>| attachments_array_at(v@, i as int, s) implies
                attachment_at(v@, j as int, s[k]) by {
                lemma_step_open(v@, j as int, s, k);
            }
        }
        let ra = parse_attachment_at(v, j);
        let (a, j2) = match ra {
            Some(p) => p,
            None => {
                return None;
            },
        };
        out.push(a);
        proof {
            assert forall|s: Seq<Attachment>| attachments_array_at(v@, i as int, s) implies {
                &&& crate::ledger::attachment_like(a, s[k])
                &&& seq_starts_with(
                    v@.skip(j2 as int),
                    (if s.len() == k + 1 {
                        Seq::<char>::empty()
                    } else {
                        ","@ + spec_print_attachment_items(s.skip(k + 1))
                    }) + "]"@,
                )
                &&& j2 + (if s.len() == k + 1 {
                    Seq::<char>::empty()
                } else {
                    ","@ + spec_print_attachment_items(s.skip(k + 1))
                }).len() + 1 == i + spec_print_attachments(s).len()
            } by {
                lemma_step_open(v@, j as int, s, k);
            }
        }
        j = j2;
        let rc = expect_lit(v, j, ",");
        match rc {
            Some(j3) => {
                proof {
                    reveal_strlit(",");
                    assert forall|s: Seq<Attachment>| attachments_array_at(
                        v@,
                        i as int,
                        s,
                    ) implies {
                        &&& k + 1 < s.len()
                        &&& seq_starts_with(
                            v@.skip(j3 as int),
                            spec_print_attachment_items(s.skip(k + 1)) + "]"@,
                        )
                        &&& j3 + spec_print_attachment_items(s.skip(k + 1)).len() + 1 == i
                            + spec_print_attachments(s).len()
                    } by {
                        reveal_strlit("]");
                        if s.len() == k + 1 {
                            lemma_add_empty("]"@);
                            crate::text::lemma_prefix_window(v@, j as int, "]"@);
                            assert(v@.subrange(j as int, j + 1)[0] == v@[j as int]);
                            assert(v@.subrange(j as int, j + ","@.len())[0] == v@[j as int]);
                        } else {
                            let its = spec_print_attachment_items(s.skip(k + 1));
                            lemma_add_assoc(","@, its, "]"@);
                            crate::text::lemma_peel(v@.skip(j as int), ","@, its + "]"@);
                            crate::text::lemma_prefix_window(v@, j as int, ","@);
                        }
                    }
                }
                j = j3;
                proof {
                    k = k + 1;
                }
            },
            None => {
                proof {
                    assert forall|s: Seq<Attachment>| attachments_array_at(
                        v@,
                        i as int,
                        s,
                    ) implies {
                        &&& s.len() == k + 1
                        &&& seq_starts_with(v@.skip(j as int), "]"@)
                        &&& j + 1 == i + spec_print_attachments(s).len()
                    } by {
                        reveal_strlit(",");
                        reveal_strlit("]");
                        if s.len() > k + 1 {
                            let its = spec_print_attachment_items(s.skip(k + 1));
                            lemma_add_assoc(","@, its, "]"@);
                            crate::text::lemma_peel(v@.skip(j as int), ","@, its + "]"@);
                            crate::text::lemma_prefix_window(v@, j as int, ","@);
                        } else {
                            lemma_add_empty("]"@);
                        }
                    }
                }
                let r4 = expect_lit(v, j, "]");
                let j4 = match r4 {
                    Some(p) => p,
                    None => {
                        proof {
                            assert forall|s: Seq<Attachment>| attachments_array_at(
                                v@,
                                i as int,
                                s,
                            ) implies false by {
                                crate::text::lemma_prefix_window(v@, j as int, "]"@);
                                reveal_strlit("]");
                            }
                        }
                        return None;
                    },
                };
                proof {
                    reveal_strlit("]");
                    assert forall|s: Seq<Attachment>| attachments_array_at(
                        v@,
                        i as int,
                        s,
                    ) implies attachments_like(out@, s) && j4 == i + spec_print_attachments(
                        s,
                    ).len() by {
                        assert(out@.len() == k + 1);
                    }
                }
                return Some((out, j4));
            },
        }
    }
}

/// Opens the array hypothesis: past the bracket the items follow, then
/// the closing bracket.
proof fn lemma_array_anatomy_open(w: Seq<char>, i: int, s: Seq<Attachment>)
    requires
        attachments_array_at(w, i, s),
    ensures
        i + "["@.len() <= w.len(),
        w.subrange(i, i + "["@.len()) == "["@,
        seq_starts_with(
            w.skip(i + "["@.len()),
            spec_print_attachment_items(s) + "]"@,
        ),
        i + "["@.len() + spec_print_attachment_items(s).len() + 1 == i + spec_print_attachments(
            s,
        ).len(),
{
    let items = spec_print_attachment_items(s);
    lemma_add_assoc("["@, items, "]"@);
    crate::text::lemma_peel(w.skip(i), "["@, items + "]"@);
    crate::text::lemma_prefix_window(w, i, "["@);
    reveal_strlit("[");
    reveal_strlit("]");
}

/// One step of the element loop: the element at `k` sits at `j`.
proof fn lemma_step_open(w: Seq<char>, j: int, s: Seq<Attachment>, k: int)
    requires
        0 <= j <= w.len(),
        0 <= k < s.len(),
        seq_starts_with(w.skip(j), spec_print_attachment_items(s.skip(k)) + "]"@),
    ensures
        attachment_at(w, j, s[k]),
        seq_starts_with(
            w.skip(j + spec_print_attachment(s[k]).len()),
            (if s.len() == k + 1 {
                Seq::<char>::empty()
            } else {
                ","@ + spec_print_attachment_items(s.skip(k + 1))
            }) + "]"@,
        ),
        spec_print_attachment_items(s.skip(k)).len() == spec_print_attachment(s[k]).len() + (if
            s.len() == k + 1 {
            Seq::<char>::empty()
        } else {
            ","@ + spec_print_attachment_items(s.skip(k + 1))
        }).len(),
{
    let rest = s.skip(k);
    lemma_items_cons(rest);
    assert(rest[0] == s[k]);
    assert(rest.skip(1) =~= s.skip(k + 1));
    let tail = if s.len() == k + 1 {
        Seq::<char>::empty()
    } else {
        ","@ + spec_print_attachment_items(s.skip(k + 1))
    };
    assert(spec_print_attachment_items(rest) == spec_print_attachment(s[k]) + tail);
    lemma_add_assoc(spec_print_attachment(s[k]), tail, "]"@);
    crate::text::lemma_peel(w.skip(j), spec_print_attachment(s[k]), tail + "]"@);
    crate::text::lemma_prefix_window(w, j, spec_print_attachment(s[k]));
}

/// Field-by-field view equality of commands.
pub open spec fn command_like(a: ClientCommand, b: ClientCommand) -> bool {
    match (a, b) {
        (
            ClientCommand::Subscribe { channel_id: x },
            ClientCommand::Subscribe { channel_id: y },
        ) => x@ == y@,
        (
            ClientCommand::Unsubscribe { channel_id: x },
            ClientCommand::Unsubscribe { channel_id: y },
        ) => x@ == y@,
        (
            ClientCommand::MessageCreate {
                channel_id: x1,
                body: x2,
                nonce: x3,
                title: x4,
                message_type: x5,
                parent_id: x6,
                attachments: x7,
            },
            ClientCommand::MessageCreate {
                channel_id: y1,
                body: y2,
                nonce: y3,
                title: y4,
                message_type: y5,
                parent_id: y6,
                attachments: y7,
            },
        ) => {
            &&& x1@ == y1@
            &&& x2@ == y2@
            &&& x3@ == y3@
            &&& match (x4, y4) {
                (Some(a4), Some(b4)) => a4@ == b4@,
                (None, None) => true,
                _ => false,
            }
            &&& x5 == y5
            &&& match (x6, y6) {
                (Some(a6), Some(b6)) => a6@ == b6@,
                (None, None) => true,
                _ => false,
            }
            &&& attachments_like(x7@, y7@)
        },
        _ => false,
    }
}

/// The hypothesis that the text at `i` carries the data object of `c`.
pub open spec fn command_data_at(w: Seq<char>, i: int, c: ClientCommand) -> bool {
    0 <= i <= w.len() && seq_starts_with(w.skip(i), spec_print_command_data(c))
}

/// The position after the three required fields of a message-create data
/// object.
pub open spec fn mc_q0(i: int, c: ClientCommand) -> int {
    i + "{\"channel_id\":"@.len() + spec_json_string(c->MessageCreate_channel_id@).len()
        + ",\"body\":"@.len() + spec_json_string(c->MessageCreate_body@).len()
        + ",\"nonce\":"@.len() + spec_json_string(c->MessageCreate_nonce@).len()
}

/// The position after the optional title.
pub open spec fn mc_q1(i: int, c: ClientCommand) -> int {
    mc_q0(i, c) + (match c->MessageCreate_title {
        Some(t) => ",\"title\":"@.len() + spec_json_string(t@).len(),
        None => 0,
    })
}

/// The position after the optional message kind.
pub open spec fn mc_q2(i: int, c: ClientCommand) -> int {
    mc_q1(i, c) + (match c->MessageCreate_message_type {
        Some(m) => ",\"message_type\":"@.len() + spec_json_string(spec_mt_tag(m)).len(),
        None => 0,
    })
}

/// The position after the optional parent id.
pub open spec fn mc_q3(i: int, c: ClientCommand) -> int {
    mc_q2(i, c) + (match c->MessageCreate_parent_id {
        Some(t) => ",\"parent_id\":"@.len() + spec_json_string(t@).len(),
        None => 0,
    })
}

/// The position after the optional attachments.
pub open spec fn mc_q4(i: int, c: ClientCommand) -> int {
    mc_q3(i, c) + (if c->MessageCreate_attachments@.len() == 0 {
        0
    } else {
        ",\"attachments\":"@.len() + spec_print_attachments(c->MessageCreate_attachments@).len()
    })
}

/// Where each piece of a printed message-create data object lies.
#[verifier::rlimit(100)]
proof fn lemma_mc_anatomy(w: Seq<char>, i: int, c: ClientCommand)
    requires
        c is MessageCreate,
        command_data_at(w, i, c),
    ensures
        field_at(w, i, "{\"channel_id\":"@, c->MessageCreate_channel_id@),
        field_at(
            w,
            i + "{\"channel_id\":"@.len() + spec_json_string(c->MessageCreate_channel_id@).len(),
            ",\"body\":"@,
            c->MessageCreate_body@,
        ),
        field_at(
            w,
            i + "{\"channel_id\":"@.len() + spec_json_string(c->MessageCreate_channel_id@).len()
                + ",\"body\":"@.len() + spec_json_string(c->MessageCreate_body@).len(),
            ",\"nonce\":"@,
            c->MessageCreate_nonce@,
        ),
        match c->MessageCreate_title {
            Some(t) => field_at(w, mc_q0(i, c), ",\"title\":"@, t@),
            None => lit_absent(w, mc_q0(i, c), ",\"title\":"@),
        },
        match c->MessageCreate_message_type {
            Some(m) => field_at(w, mc_q1(i, c), ",\"message_type\":"@, spec_mt_tag(m)),
            None => lit_absent(w, mc_q1(i, c), ",\"message_type\":"@),
        },
        match c->MessageCreate_parent_id {
            Some(t) => field_at(w, mc_q2(i, c), ",\"parent_id\":"@, t@),
            None => lit_absent(w, mc_q2(i, c), ",\"parent_id\":"@),
        },
        if c->MessageCreate_attachments@.len() == 0 {
            lit_absent(w, mc_q3(i, c), ",\"attachments\":"@)
        } else {
            mc_q3(i, c) + ",\"attachments\":"@.len() <= w.len() && w.subrange(
                mc_q3(i, c),
                mc_q3(i, c) + ",\"attachments\":"@.len(),
            ) == ",\"attachments\":"@ && attachments_array_at(
                w,
                mc_q3(i, c) + ",\"attachments\":"@.len(),
                c->MessageCreate_attachments@,
            )
        },
        mc_q4(i, c) + 1 <= w.len() && w.subrange(mc_q4(i, c), mc_q4(i, c) + 1) == "}"@,
        mc_q4(i, c) + 1 == i + spec_print_command_data(c).len(),
{
    let kc = "{\"channel_id\":"@;
    let jc = spec_json_string(c->MessageCreate_channel_id@);
    let kb = ",\"body\":"@;
    let jb = spec_json_string(c->MessageCreate_body@);
    let kn = ",\"nonce\":"@;
    let jn = spec_json_string(c->MessageCreate_nonce@);
    let tkey = ",\"title\":"@;
    let mkey = ",\"message_type\":"@;
    let pkey = ",\"parent_id\":"@;
    let akey = ",\"attachments\":"@;
    let m1 = match c->MessageCreate_title {
        Some(t) => tkey + spec_json_string(t@),
        None => Seq::<char>::empty(),
    };
    let m2 = match c->MessageCreate_message_type {
        Some(m) => mkey + spec_json_string(spec_mt_tag(m)),
        None => Seq::<char>::empty(),
    };
    let m3 = match c->MessageCreate_parent_id {
        Some(t) => pkey + spec_json_string(t@),
        None => Seq::<char>::empty(),
    };
    let m4 = if c->MessageCreate_attachments@.len() == 0 {
        Seq::<char>::empty()
    } else {
        akey + spec_print_attachments(c->MessageCreate_attachments@)
    };
    let cb = "}"@;
    let pr = spec_print_command_data(c);
    assert(pr == kc + jc + kb + jb + kn + jn + m1 + m2 + m3 + m4 + cb);
    lemma_add_assoc(kc + jc + kb + jb + kn + jn + m1 + m2 + m3, m4, cb);
    lemma_add_assoc(kc + jc + kb + jb + kn + jn + m1 + m2, m3, m4 + cb);
    lemma_add_assoc(kc + jc + kb + jb + kn + jn + m1, m2, m3 + (m4 + cb));
    lemma_add_assoc(kc + jc + kb + jb + kn + jn, m1, m2 + (m3 + (m4 + cb)));
    lemma_add_assoc(kc + jc + kb + jb + kn, jn, m1 + (m2 + (m3 + (m4 + cb))));
    lemma_add_assoc(kc + jc + kb + jb, kn, jn + (m1 + (m2 + (m3 + (m4 + cb)))));
    lemma_add_assoc(kc + jc + kb, jb, kn + (jn + (m1 + (m2 + (m3 + (m4 + cb))))));
    lemma_add_assoc(kc + jc, kb, jb + (kn + (jn + (m1 + (m2 + (m3 + (m4 + cb)))))));
    lemma_add_assoc(kc, jc, kb + (jb + (kn + (jn + (m1 + (m2 + (m3 + (m4 + cb))))))));
    assert(pr == kc + (jc + (kb + (jb + (kn + (jn + (m1 + (m2 + (m3 + (m4 + cb))))))))));
    crate::text::lemma_peel(w.skip(i), kc, jc + (kb + (jb + (kn + (jn + (m1 + (m2 + (m3 + (m4
        + cb)))))))));
    crate::text::lemma_prefix_window(w, i, kc);
    let x1 = i + kc.len();
    crate::text::lemma_peel(w.skip(x1), jc, kb + (jb + (kn + (jn + (m1 + (m2 + (m3 + (m4 + cb))))))));
    crate::text::lemma_prefix_window(w, x1, jc);
    let x2 = x1 + jc.len();
    crate::text::lemma_peel(w.skip(x2), kb, jb + (kn + (jn + (m1 + (m2 + (m3 + (m4 + cb)))))));
    crate::text::lemma_prefix_window(w, x2, kb);
    let x3 = x2 + kb.len();
    crate::text::lemma_peel(w.skip(x3), jb, kn + (jn + (m1 + (m2 + (m3 + (m4 + cb))))));
    crate::text::lemma_prefix_window(w, x3, jb);
    let x4 = x3 + jb.len();
    crate::text::lemma_peel(w.skip(x4), kn, jn + (m1 + (m2 + (m3 + (m4 + cb)))));
    crate::text::lemma_prefix_window(w, x4, kn);
    let x5 = x4 + kn.len();
    crate::text::lemma_peel(w.skip(x5), jn, m1 + (m2 + (m3 + (m4 + cb))));
    crate::text::lemma_prefix_window(w, x5, jn);
    let q0 = mc_q0(i, c);
    assert(q0 == x5 + jn.len());
    assert(seq_starts_with(w.skip(q0), m1 + (m2 + (m3 + (m4 + cb)))));
    reveal_strlit(",\"title\":");
    reveal_strlit(",\"message_type\":");
    reveal_strlit(",\"parent_id\":");
    reveal_strlit(",\"attachments\":");
    reveal_strlit("}");
    assert(tkey[2] == 't' && mkey[2] == 'm' && pkey[2] == 'p' && akey[2] == 'a');
    assert(tkey[0] == ',' && mkey[0] == ',' && pkey[0] == ',' && akey[0] == ',' && cb[0] == '}');
    match c->MessageCreate_title {
        Some(t) => {
            lemma_add_assoc(tkey, spec_json_string(t@), m2 + (m3 + (m4 + cb)));
            crate::text::lemma_peel(w.skip(q0), tkey, spec_json_string(t@) + (m2 + (m3 + (m4
                + cb))));
            crate::text::lemma_prefix_window(w, q0, tkey);
            crate::text::lemma_peel(w.skip(q0 + tkey.len()), spec_json_string(t@), m2 + (m3 + (m4
                + cb)));
            crate::text::lemma_prefix_window(w, q0 + tkey.len(), spec_json_string(t@));
        },
        None => {
            lemma_add_empty(m2 + (m3 + (m4 + cb)));
            if c->MessageCreate_message_type is Some {
                lemma_add_assoc(mkey, spec_json_string(spec_mt_tag(c->MessageCreate_message_type->0)),
                    m3 + (m4 + cb));
                crate::text::lemma_peel(w.skip(q0), mkey, spec_json_string(spec_mt_tag(
                    c->MessageCreate_message_type->0)) + (m3 + (m4 + cb)));
                lemma_not_started(w, q0, tkey, mkey, 2);
            } else if c->MessageCreate_parent_id is Some {
                lemma_add_empty(m3 + (m4 + cb));
                lemma_add_assoc(pkey, spec_json_string(c->MessageCreate_parent_id->0@), m4 + cb);
                crate::text::lemma_peel(w.skip(q0), pkey, spec_json_string(
                    c->MessageCreate_parent_id->0@) + (m4 + cb));
                lemma_not_started(w, q0, tkey, pkey, 2);
            } else if c->MessageCreate_attachments@.len() > 0 {
                lemma_add_empty(m3 + (m4 + cb));
                lemma_add_empty(m4 + cb);
                lemma_add_assoc(akey, spec_print_attachments(c->MessageCreate_attachments@), cb);
                crate::text::lemma_peel(w.skip(q0), akey, spec_print_attachments(
                    c->MessageCreate_attachments@) + cb);
                lemma_not_started(w, q0, tkey, akey, 2);
            } else {
                lemma_add_empty(m3 + (m4 + cb));
                lemma_add_empty(m4 + cb);
                lemma_add_empty(cb);
                lemma_not_started(w, q0, tkey, cb, 0);
            }
        },
    }
    let q1 = mc_q1(i, c);
    assert(seq_starts_with(w.skip(q1), m2 + (m3 + (m4 + cb))));
    match c->MessageCreate_message_type {
        Some(m) => {
            lemma_add_assoc(mkey, spec_json_string(spec_mt_tag(m)), m3 + (m4 + cb));
            crate::text::lemma_peel(w.skip(q1), mkey, spec_json_string(spec_mt_tag(m)) + (m3 + (m4
                + cb)));
            crate::text::lemma_prefix_window(w, q1, mkey);
            crate::text::lemma_peel(w.skip(q1 + mkey.len()), spec_json_string(spec_mt_tag(m)), m3
                + (m4 + cb));
            crate::text::lemma_prefix_window(w, q1 + mkey.len(), spec_json_string(spec_mt_tag(m)));
        },
        None => {
            lemma_add_empty(m3 + (m4 + cb));
            if c->MessageCreate_parent_id is Some {
                lemma_add_assoc(pkey, spec_json_string(c->MessageCreate_parent_id->0@), m4 + cb);
                crate::text::lemma_peel(w.skip(q1), pkey, spec_json_string(
                    c->MessageCreate_parent_id->0@) + (m4 + cb));
                lemma_not_started(w, q1, mkey, pkey, 2);
            } else if c->MessageCreate_attachments@.len() > 0 {
                lemma_add_empty(m4 + cb);
                lemma_add_assoc(akey, spec_print_attachments(c->MessageCreate_attachments@), cb);
                crate::text::lemma_peel(w.skip(q1), akey, spec_print_attachments(
                    c->MessageCreate_attachments@) + cb);
                lemma_not_started(w, q1, mkey, akey, 2);
            } else {
                lemma_add_empty(m4 + cb);
                lemma_add_empty(cb);
                lemma_not_started(w, q1, mkey, cb, 0);
            }
        },
    }
    let q2 = mc_q2(i, c);
    assert(seq_starts_with(w.skip(q2), m3 + (m4 + cb)));
    match c->MessageCreate_parent_id {
        Some(t) => {
            lemma_add_assoc(pkey, spec_json_string(t@), m4 + cb);
            crate::text::lemma_peel(w.skip(q2), pkey, spec_json_string(t@) + (m4 + cb));
            crate::text::lemma_prefix_window(w, q2, pkey);
            crate::text::lemma_peel(w.skip(q2 + pkey.len()), spec_json_string(t@), m4 + cb);
            crate::text::lemma_prefix_window(w, q2 + pkey.len(), spec_json_string(t@));
        },
        None => {
            lemma_add_empty(m4 + cb);
            if c->MessageCreate_attachments@.len() > 0 {
                lemma_add_assoc(akey, spec_print_attachments(c->MessageCreate_attachments@), cb);
                crate::text::lemma_peel(w.skip(q2), akey, spec_print_attachments(
                    c->MessageCreate_attachments@) + cb);
                lemma_not_started(w, q2, pkey, akey, 2);
            } else {
                lemma_add_empty(cb);
                lemma_not_started(w, q2, pkey, cb, 0);
            }
        },
    }
    let q3 = mc_q3(i, c);
    assert(seq_starts_with(w.skip(q3), m4 + cb));
    if c->MessageCreate_attachments@.len() > 0 {
        lemma_add_assoc(akey, spec_print_attachments(c->MessageCreate_attachments@), cb);
        crate::text::lemma_peel(w.skip(q3), akey, spec_print_attachments(
            c->MessageCreate_attachments@) + cb);
        crate::text::lemma_prefix_window(w, q3, akey);
        crate::text::lemma_peel(w.skip(q3 + akey.len()), spec_print_attachments(
            c->MessageCreate_attachments@), cb);
        crate::text::lemma_prefix_window(w, q3 + akey.len(), spec_print_attachments(
            c->MessageCreate_attachments@));
    } else {
        lemma_add_empty(cb);
        lemma_not_started(w, q3, akey, cb, 0);
    }
    let q4 = mc_q4(i, c);
    assert(seq_starts_with(w.skip(q4), cb));
    crate::text::lemma_prefix_window(w, q4, cb);
}

/// Where the pieces of a subscribe or unsubscribe data object lie.
proof fn lemma_channel_data_anatomy(w: Seq<char>, i: int, ch: Seq<char>)
    requires
        0 <= i <= w.len(),
        seq_starts_with(
            w.skip(i),
            "{\"channel_id\":"@ + spec_json_string(ch) + "}"@,
        ),
    ensures
        field_at(w, i, "{\"channel_id\":"@, ch),
        ({
            let q = i + "{\"channel_id\":"@.len() + spec_json_string(ch).len();
            q + 1 <= w.len() && w.subrange(q, q + 1) == "}"@ && q + 1 == i + ("{\"channel_id\":"@
                + spec_json_string(ch) + "}"@).len()
        }),
{
    let kc = "{\"channel_id\":"@;
    let jc = spec_json_string(ch);
    let cb = "}"@;
    lemma_add_assoc(kc, jc, cb);
    crate::text::lemma_peel(w.skip(i), kc, jc + cb);
    crate::text::lemma_prefix_window(w, i, kc);
    crate::text::lemma_peel(w.skip(i + kc.len()), jc, cb);
    crate::text::lemma_prefix_window(w, i + kc.len(), jc);
    crate::text::lemma_prefix_window(w, i + kc.len() + jc.len(), cb);
    reveal_strlit("}");
}

/// A command whose tag reads `message.create` is a message create.
proof fn lemma_tag_mc(c: ClientCommand)
    requires
        spec_command_tag(c) == "message.create"@,
    ensures
        c is MessageCreate,
{
    reveal_strlit("subscribe");
    reveal_strlit("unsubscribe");
    reveal_strlit("message.create");
    assert("subscribe"@.len() == 9 && "unsubscribe"@.len() == 11 && "message.create"@.len() == 14);
}

/// A command whose tag reads `subscribe` is a subscribe, and likewise
/// for `unsubscribe`.
proof fn lemma_tag_channel(c: ClientCommand)
    ensures
        spec_command_tag(c) == "subscribe"@ ==> c is Subscribe,
        spec_command_tag(c) == "unsubscribe"@ ==> c is Unsubscribe,
{
    reveal_strlit("subscribe");
    reveal_strlit("unsubscribe");
    reveal_strlit("message.create");
    assert("subscribe"@.len() == 9 && "unsubscribe"@.len() == 11 && "message.create"@.len() == 14);
}

/// The channel a subscribe or unsubscribe command names.
pub open spec fn spec_channel_of(c: ClientCommand) -> Seq<char> {
    match c {
        ClientCommand::Subscribe { channel_id } => channel_id@,
        ClientCommand::Unsubscribe { channel_id } => channel_id@,
        ClientCommand::MessageCreate { channel_id, .. } => channel_id@,
    }
}

/// Parses the four optional slots of a message-create data object,
/// starting right after its required fields.
/// Parses the optional title and message-kind slots of a message-create
/// data object, starting right after its required fields.
#[verifier::rlimit(100)]
fn parse_mc_title_mt(v: &Vec<char>, j: usize, Ghost(i0): Ghost<int>) -> (r: Option<
    (Option<String>, Option<MessageType>, usize),
>)
    requires
        j <= v@.len(),
    ensures
        r matches Some((_, _, j2)) ==> j <= j2 <= v@.len(),
        forall|c: ClientCommand| (#[trigger] command_data_at(v@, i0, c) && c is MessageCreate
            && j == mc_q0(i0, c)) ==> (r matches Some((title, mt, j2)) && (match (
            title,
            c->MessageCreate_title,
        ) {
            (Some(a), Some(b)) => a@ == b@,
            (None, None) => true,
            _ => false,
        }) && mt == c->MessageCreate_message_type && j2 == mc_q2(i0, c)),
{
    let ghost j_entry: int = j as int;
    let ghost j_entry: int = j as int;
    proof {
        assert forall|c: ClientCommand| command_data_at(v@, i0, c) && c is MessageCreate
            && j_entry == mc_q0(i0, c) implies (match c->MessageCreate_title {
            Some(t) => field_at(v@, mc_q0(i0, c), ",\"title\":"@, t@),
            None => lit_absent(v@, mc_q0(i0, c), ",\"title\":"@),
        }) by {
            lemma_mc_anatomy(v@, i0, c);
        }
    }
    let r4 = parse_field_string(v, j, ",\"title\":");
    let (title, j) = match r4 {
        Some((t, j2)) => (Some(t), j2),
        None => (None, j),
    };
    proof {
        assert forall|c: ClientCommand| command_data_at(v@, i0, c) && c is MessageCreate
            && j_entry == mc_q0(i0, c) implies (match (title, c->MessageCreate_title) {
            (Some(a), Some(b)) => a@ == b@,
            (None, None) => true,
            _ => false,
        }) && j == mc_q1(i0, c) && (match c->MessageCreate_message_type {
            Some(m) => field_at(v@, mc_q1(i0, c), ",\"message_type\":"@, spec_mt_tag(m)),
            None => lit_absent(v@, mc_q1(i0, c), ",\"message_type\":"@),
        }) by {
            lemma_mc_anatomy(v@, i0, c);
        }
    }
    let r5 = expect_lit(v, j, ",\"message_type\":");
    let (message_type, j) = match r5 {
        Some(j2) => {
            proof {
                assert forall|c: ClientCommand| command_data_at(v@, i0, c) && c is MessageCreate
            && j_entry == mc_q0(i0, c) implies c->MessageCreate_message_type is Some
                    && crate::wire::spec_parse_string(v@, j2 as int) == Some::<
                    (Seq<char>, int),
                >(
                    (
                        spec_mt_tag(c->MessageCreate_message_type->0),
                        mc_q2(i0, c),
                    ),
                ) by {
                            lemma_mc_anatomy(v@, i0, c);
                    match c->MessageCreate_message_type {
                        Some(m) => {
                            crate::text::lemma_prefix_window(v@, mc_q1(i0, c), ",\"message_type\":"@);
                            crate::text::lemma_prefix_window(
                                v@,
                                mc_q1(i0, c) + ",\"message_type\":"@.len(),
                                spec_json_string(spec_mt_tag(m)),
                            );
                            crate::wire::lemma_parse_string_inverts(
                                v@,
                                j2 as int,
                                spec_mt_tag(m),
                            );
                        },
                        None => {
                            crate::text::lemma_prefix_window(v@, mc_q1(i0, c), ",\"message_type\":"@);
                        },
                    }
                }
            }
            let r6 = parse_json_string(v, j2);
            let (mt_text, j3) = match r6 {
                Some(p) => p,
                None => {
                    return None;
                },
            };
            let r7 = mt_from_tag(&mt_text);
            match r7 {
                Some(m) => {
                    let pair = (Some(m), j3);
                    proof {
                        assert forall|c: ClientCommand| command_data_at(v@, i0, c)
                            && c is MessageCreate && j_entry == mc_q0(i0, c) implies pair.0
                            == c->MessageCreate_message_type && pair.1 == mc_q2(
                            i0,
                            c,
                        ) by {
                            assert(c->MessageCreate_message_type is Some);
                            let mh = c->MessageCreate_message_type->0;
                            assert(crate::wire::spec_parse_string(v@, j2 as int) == Some::<
                                (Seq<char>, int),
                            >((spec_mt_tag(mh), mc_q2(i0, c))));
                            assert(mt_text@ == spec_mt_tag(mh));
                            assert(j3 == mc_q2(i0, c));
                            assert(r7 == Some(mh));
                        }
                    }
                    pair
                },
                None => {
                    proof {
                        assert forall|c: ClientCommand| command_data_at(v@, i0, c)
                            && c is MessageCreate && j_entry == mc_q0(i0, c) implies false by {
                                            lemma_mc_anatomy(v@, i0, c);
                        }
                    }
                    return None;
                },
            }
        },
        None => {
            let pair = (None::<MessageType>, j);
            proof {
                assert forall|c: ClientCommand| command_data_at(v@, i0, c) && c is MessageCreate
            && j_entry == mc_q0(i0, c) implies pair.0 == c->MessageCreate_message_type
                    && pair.1 == mc_q2(i0, c) by {
                            lemma_mc_anatomy(v@, i0, c);
                    match c->MessageCreate_message_type {
                        Some(m) => {
                            crate::text::lemma_prefix_window(v@, mc_q1(i0, c), ",\"message_type\":"@);
                        },
                        None => {},
                    }
                }
            }
            pair
        },
    };
    Some((title, message_type, j))
}

/// Parses the optional parent-id and attachments slots of a
/// message-create data object, starting right after the message kind.
#[verifier::rlimit(100)]
fn parse_mc_pid_atts(v: &Vec<char>, j: usize, Ghost(i0): Ghost<int>) -> (r: Option<
    (Option<String>, Vec<Attachment>, usize),
>)
    requires
        j <= v@.len(),
    ensures
        r matches Some((_, _, j2)) ==> j <= j2 <= v@.len(),
        forall|c: ClientCommand| (#[trigger] command_data_at(v@, i0, c) && c is MessageCreate
            && j == mc_q2(i0, c)) ==> (r matches Some((pid, atts, j2)) && (match (
            pid,
            c->MessageCreate_parent_id,
        ) {
            (Some(a), Some(b)) => a@ == b@,
            (None, None) => true,
            _ => false,
        }) && attachments_like(atts@, c->MessageCreate_attachments@) && j2 == mc_q4(i0, c)),
{
    let ghost j_entry: int = j as int;
    proof {
        assert forall|c: ClientCommand| command_data_at(v@, i0, c) && c is MessageCreate
            && j_entry == mc_q2(i0, c) implies (match c->MessageCreate_parent_id {
            Some(t) => field_at(v@, mc_q2(i0, c), ",\"parent_id\":"@, t@),
            None => lit_absent(v@, mc_q2(i0, c), ",\"parent_id\":"@),
        }) by {
            lemma_mc_anatomy(v@, i0, c);
        }
    }
    let r8 = parse_field_string(v, j, ",\"parent_id\":");
    let (parent_id, j) = match r8 {
        Some((t, j2)) => (Some(t), j2),
        None => (None, j),
    };
    proof {
        assert forall|c: ClientCommand| command_data_at(v@, i0, c) && c is MessageCreate
            && j_entry == mc_q2(i0, c) implies (match (parent_id, c->MessageCreate_parent_id) {
            (Some(a), Some(b)) => a@ == b@,
            (None, None) => true,
            _ => false,
        }) && j == mc_q3(i0, c) && (if c->MessageCreate_attachments@.len() == 0 {
            lit_absent(v@, mc_q3(i0, c), ",\"attachments\":"@)
        } else {
            mc_q3(i0, c) + ",\"attachments\":"@.len() <= v@.len() && v@.subrange(
                mc_q3(i0, c),
                mc_q3(i0, c) + ",\"attachments\":"@.len(),
            ) == ",\"attachments\":"@ && attachments_array_at(
                v@,
                mc_q3(i0, c) + ",\"attachments\":"@.len(),
                c->MessageCreate_attachments@,
            )
        }) by {
            lemma_mc_anatomy(v@, i0, c);
        }
    }
    let r9 = expect_lit(v, j, ",\"attachments\":");
    let (attachments, j) = match r9 {
        Some(j2) => {
            proof {
                assert forall|c: ClientCommand| command_data_at(v@, i0, c) && c is MessageCreate
            && j_entry == mc_q2(i0, c) implies attachments_array_at(
                    v@,
                    j2 as int,
                    c->MessageCreate_attachments@,
                ) by {
                            lemma_mc_anatomy(v@, i0, c);
                }
            }
            let r10 = parse_attachments_at(v, j2);
            match r10 {
                Some(p) => {
                    let pair = p;
                    proof {
                        assert forall|c: ClientCommand| command_data_at(v@, i0, c)
                            && c is MessageCreate && j_entry == mc_q2(i0, c) implies attachments_like(
                            pair.0@,
                            c->MessageCreate_attachments@,
                        ) && pair.1 == mc_q4(i0, c) by {
                                            lemma_mc_anatomy(v@, i0, c);
                        }
                    }
                    pair
                },
                None => {
                    return None;
                },
            }
        },
        None => {
            let pair = (Vec::<Attachment>::new(), j);
            proof {
                assert forall|c: ClientCommand| command_data_at(v@, i0, c) && c is MessageCreate
            && j_entry == mc_q2(i0, c) implies attachments_like(
                    pair.0@,
                    c->MessageCreate_attachments@,
                ) && pair.1 == mc_q4(i0, c) by {
                            lemma_mc_anatomy(v@, i0, c);
                    assert(pair.0@ =~= Seq::<Attachment>::empty());
                }
            }
            pair
        },
    };
    Some((parent_id, attachments, j))
}

/// Parses a message-create data object.
#[verifier::rlimit(100)]
fn parse_mc_data_at(v: &Vec<char>, i: usize) -> (r: Option<(ClientCommand, usize)>)
    requires
        i <= v@.len(),
    ensures
        r matches Some((_, j)) ==> i < j <= v@.len(),
        forall|c: ClientCommand| (#[trigger] command_data_at(v@, i as int, c)
            && c is MessageCreate) ==> (r matches Some((out, j)) && command_like(out, c) && j == i
            + spec_print_command_data(c).len()),
{
    proof {
        assert forall|c: ClientCommand| command_data_at(v@, i as int, c) && c is MessageCreate implies c is MessageCreate && field_at(
            v@,
            i as int,
            "{\"channel_id\":"@,
            c->MessageCreate_channel_id@,
        ) by {
            lemma_mc_anatomy(v@, i as int, c);
        }
    }
    let r1 = parse_field_string(v, i, "{\"channel_id\":");
    let (channel_id, j) = match r1 {
        Some(p) => p,
        None => {
            return None;
        },
    };
    proof {
        assert forall|c: ClientCommand| command_data_at(v@, i as int, c) && c is MessageCreate implies channel_id@ == c->MessageCreate_channel_id@
            && field_at(v@, j as int, ",\"body\":"@, c->MessageCreate_body@) by {
            lemma_mc_anatomy(v@, i as int, c);
        }
    }
    let r2 = parse_field_string(v, j, ",\"body\":");
    let (body, j) = match r2 {
        Some(p) => p,
        None => {
            return None;
        },
    };
    proof {
        assert forall|c: ClientCommand| command_data_at(v@, i as int, c) && c is MessageCreate implies body@ == c->MessageCreate_body@ && field_at(
            v@,
            j as int,
            ",\"nonce\":"@,
            c->MessageCreate_nonce@,
        ) by {
            lemma_mc_anatomy(v@, i as int, c);
        }
    }
    let r3 = parse_field_string(v, j, ",\"nonce\":");
    let (nonce, j) = match r3 {
        Some(p) => p,
        None => {
            return None;
        },
    };
    proof {
        assert forall|c: ClientCommand| command_data_at(v@, i as int, c) && c is MessageCreate implies nonce@ == c->MessageCreate_nonce@ && j == mc_q0(
            i as int,
            c,
        ) && (match c->MessageCreate_title {
            Some(t) => field_at(v@, mc_q0(i as int, c), ",\"title\":"@, t@),
            None => lit_absent(v@, mc_q0(i as int, c), ",\"title\":"@),
        }) by {
            lemma_mc_anatomy(v@, i as int, c);
        }
    }
    let ropt = parse_mc_title_mt(v, j, Ghost(i as int));
    let (title, message_type, j) = match ropt {
        Some(p) => p,
        None => {
            return None;
        },
    };
    let ropt2 = parse_mc_pid_atts(v, j, Ghost(i as int));
    let (parent_id, attachments, j) = match ropt2 {
        Some(p) => p,
        None => {
            return None;
        },
    };
    proof {
        assert forall|c: ClientCommand| command_data_at(v@, i as int, c)
            && c is MessageCreate implies (match (title, c->MessageCreate_title) {
            (Some(a), Some(b)) => a@ == b@,
            (None, None) => true,
            _ => false,
        }) && message_type == c->MessageCreate_message_type && (match (
            parent_id,
            c->MessageCreate_parent_id,
        ) {
            (Some(a), Some(b)) => a@ == b@,
            (None, None) => true,
            _ => false,
        }) && attachments_like(attachments@, c->MessageCreate_attachments@) && j == mc_q4(
            i as int,
            c,
        ) && j + "}"@.len() <= v@.len() && v@.subrange(j as int, j + "}"@.len()) == "}"@ && mc_q4(
            i as int,
            c,
        ) + 1 == i + spec_print_command_data(c).len() by {
            lemma_mc_anatomy(v@, i as int, c);
            reveal_strlit("}");
        }
    }
    let r11 = expect_lit(v, j, "}");
    let j = match r11 {
        Some(p) => p,
        None => {
            return None;
        },
    };
    if j <= i {
        proof {
            assert forall|c: ClientCommand| command_data_at(v@, i as int, c)
                && c is MessageCreate implies false by {
                lemma_mc_anatomy(v@, i as int, c);
            }
        }
        return None;
    }
    Some(
        (
            ClientCommand::MessageCreate {
                channel_id,
                body,
                nonce,
                title,
                message_type,
                parent_id,
                attachments,
            },
            j,
        ),
    )
}

#[verifier::rlimit(100)]
fn parse_command_data_at(v: &Vec<char>, i: usize, tag: &Vec<char>) -> (r: Option<(
    ClientCommand,
    usize,
)>)
    requires
        i <= v@.len(),
    ensures
        r matches Some((_, j)) ==> i < j <= v@.len(),
        forall|c: ClientCommand| (#[trigger] command_data_at(v@, i as int, c) && tag@
            == spec_command_tag(c)) ==> (r matches Some((out, j)) && command_like(out, c) && j == i
            + spec_print_command_data(c).len()),
{
    let subscribe = str_to_chars("subscribe");
    let unsubscribe = str_to_chars("unsubscribe");
    let create = str_to_chars("message.create");
    if chars_eq(tag, &subscribe) || chars_eq(tag, &unsubscribe) {
        let is_sub = chars_eq(tag, &subscribe);
        proof {
            assert forall|c: ClientCommand| command_data_at(v@, i as int, c) && tag@
                == spec_command_tag(c) implies (if is_sub {
                c is Subscribe
            } else {
                c is Unsubscribe
            }) && field_at(
                v@,
                i as int,
                "{\"channel_id\":"@,
                spec_channel_of(c),
            ) by {
                lemma_tag_channel(c);
                reveal_strlit("subscribe");
                reveal_strlit("unsubscribe");
                lemma_channel_data_anatomy(v@, i as int, spec_channel_of(c));
            }
        }
        let r1 = parse_field_string(v, i, "{\"channel_id\":");
        let (channel_id, j) = match r1 {
            Some(p) => p,
            None => {
                return None;
            },
        };
        proof {
            assert forall|c: ClientCommand| command_data_at(v@, i as int, c) && tag@
                == spec_command_tag(c) implies channel_id@ == spec_channel_of(c) && j
                + "}"@.len() <= v@.len() && v@.subrange(j as int, j + "}"@.len()) == "}"@ && j + 1
                == i + spec_print_command_data(c).len() by {
                lemma_tag_channel(c);
                reveal_strlit("subscribe");
                reveal_strlit("unsubscribe");
                lemma_channel_data_anatomy(v@, i as int, spec_channel_of(c));
                reveal_strlit("}");
            }
        }
        let r2 = expect_lit(v, j, "}");
        let j = match r2 {
            Some(p) => p,
            None => {
                return None;
            },
        };
        if j <= i {
            return None;
        }
        proof {
            reveal_strlit("subscribe");
            reveal_strlit("unsubscribe");
        }
        if is_sub {
            Some((ClientCommand::Subscribe { channel_id }, j))
        } else {
            Some((ClientCommand::Unsubscribe { channel_id }, j))
        }
    } else if chars_eq(tag, &create) {
        proof {
            assert forall|c: ClientCommand| command_data_at(v@, i as int, c) && tag@
                == spec_command_tag(c) implies c is MessageCreate by {
                lemma_tag_mc(c);
            }
        }
        let r = parse_mc_data_at(v, i);
        proof {
            assert forall|c: ClientCommand| command_data_at(v@, i as int, c) && tag@
                == spec_command_tag(c) implies (r matches Some((out, j)) && command_like(out, c)
                && j == i + spec_print_command_data(c).len()) by {
                lemma_tag_mc(c);
            }
        }
        r
    } else {
        proof {
            assert forall|c: ClientCommand| command_data_at(v@, i as int, c) && tag@
                == spec_command_tag(c) implies false by {
                reveal_strlit("subscribe");
                reveal_strlit("unsubscribe");
                reveal_strlit("message.create");
            }
        }
        None
    }
}

/// Field-by-field view equality of outbound envelopes.
pub open spec fn cmd_env_like(a: WsEnvelope<ClientCommand>, b: WsEnvelope<ClientCommand>) -> bool {
    &&& a.id@ == b.id@
    &&& command_like(a.payload, b.payload)
    &&& a.ts@ == b.ts@
    &&& match (a.correlation_id, b.correlation_id) {
        (Some(x), Some(y)) => x@ == y@,
        (None, None) => true,
        _ => false,
    }
}

/// The position of the type tag token in a printed frame.
pub open spec fn env_p1(env: WsEnvelope<ClientCommand>) -> int {
    "{\"id\":"@.len() + spec_json_string(env.id@).len() + ",\"type\":"@.len() as int
}

/// The position of the data object in a printed frame.
pub open spec fn env_p2(env: WsEnvelope<ClientCommand>) -> int {
    env_p1(env) + spec_json_string(spec_command_tag(env.payload)).len() + ",\"data\":"@.len()
}

/// The position after the data object.
pub open spec fn env_p3(env: WsEnvelope<ClientCommand>) -> int {
    env_p2(env) + spec_print_command_data(env.payload).len()
}

/// The position after the timestamp field.
pub open spec fn env_p4(env: WsEnvelope<ClientCommand>) -> int {
    env_p3(env) + ",\"ts\":"@.len() + spec_json_string(env.ts@).len()
}

/// The position of the closing brace of a printed frame.
pub open spec fn env_p5(env: WsEnvelope<ClientCommand>) -> int {
    env_p4(env) + (match env.correlation_id {
        Some(c) => ",\"correlationId\":"@.len() + spec_json_string(c@).len(),
        None => 0,
    })
}

/// Where each piece of a printed outbound frame lies.
#[verifier::rlimit(100)]
proof fn lemma_cmd_env_anatomy(w: Seq<char>, env: WsEnvelope<ClientCommand>)
    requires
        w == spec_print_command_envelope(env),
    ensures
        field_at(w, 0, "{\"id\":"@, env.id@),
        env_p1(env) <= w.len() && w.subrange(
            env_p1(env) - ",\"type\":"@.len(),
            env_p1(env),
        ) == ",\"type\":"@,
        seq_starts_with(w.skip(env_p1(env)), spec_json_string(spec_command_tag(env.payload))),
        env_p2(env) <= w.len() && w.subrange(
            env_p2(env) - ",\"data\":"@.len(),
            env_p2(env),
        ) == ",\"data\":"@,
        command_data_at(w, env_p2(env), env.payload),
        field_at(w, env_p3(env), ",\"ts\":"@, env.ts@),
        match env.correlation_id {
            Some(c) => field_at(w, env_p4(env), ",\"correlationId\":"@, c@),
            None => lit_absent(w, env_p4(env), ",\"correlationId\":"@),
        },
        env_p5(env) + 1 == w.len() && w.subrange(env_p5(env), env_p5(env) + 1) == "}"@,
{
    let k1 = "{\"id\":"@;
    let j1 = spec_json_string(env.id@);
    let k2 = ",\"type\":"@;
    let j2 = spec_json_string(spec_command_tag(env.payload));
    let k3 = ",\"data\":"@;
    let dt = spec_print_command_data(env.payload);
    let k4 = ",\"ts\":"@;
    let j4 = spec_json_string(env.ts@);
    let m1 = match env.correlation_id {
        Some(c) => ",\"correlationId\":"@ + spec_json_string(c@),
        None => Seq::<char>::empty(),
    };
    let cb = "}"@;
    assert(w == k1 + j1 + k2 + j2 + k3 + dt + k4 + j4 + m1 + cb);
    lemma_add_assoc(k1 + j1 + k2 + j2 + k3 + dt + k4 + j4, m1, cb);
    lemma_add_assoc(k1 + j1 + k2 + j2 + k3 + dt + k4, j4, m1 + cb);
    lemma_add_assoc(k1 + j1 + k2 + j2 + k3 + dt, k4, j4 + (m1 + cb));
    lemma_add_assoc(k1 + j1 + k2 + j2 + k3, dt, k4 + (j4 + (m1 + cb)));
    lemma_add_assoc(k1 + j1 + k2 + j2, k3, dt + (k4 + (j4 + (m1 + cb))));
    lemma_add_assoc(k1 + j1 + k2, j2, k3 + (dt + (k4 + (j4 + (m1 + cb)))));
    lemma_add_assoc(k1 + j1, k2, j2 + (k3 + (dt + (k4 + (j4 + (m1 + cb))))));
    lemma_add_assoc(k1, j1, k2 + (j2 + (k3 + (dt + (k4 + (j4 + (m1 + cb)))))));
    assert(w == k1 + (j1 + (k2 + (j2 + (k3 + (dt + (k4 + (j4 + (m1 + cb)))))))));
    assert(seq_starts_with(w.skip(0), w)) by {
        assert(w.skip(0) =~= w);
        assert(w.subrange(0, w.len() as int) =~= w);
    }
    crate::text::lemma_peel(w.skip(0), k1, j1 + (k2 + (j2 + (k3 + (dt + (k4 + (j4 + (m1 + cb))))))));
    crate::text::lemma_prefix_window(w, 0, k1);
    let x1 = k1.len() as int;
    crate::text::lemma_peel(w.skip(x1), j1, k2 + (j2 + (k3 + (dt + (k4 + (j4 + (m1 + cb)))))));
    crate::text::lemma_prefix_window(w, x1, j1);
    let x2 = x1 + j1.len();
    crate::text::lemma_peel(w.skip(x2), k2, j2 + (k3 + (dt + (k4 + (j4 + (m1 + cb))))));
    crate::text::lemma_prefix_window(w, x2, k2);
    let x3 = x2 + k2.len();
    crate::text::lemma_peel(w.skip(x3), j2, k3 + (dt + (k4 + (j4 + (m1 + cb)))));
    crate::text::lemma_prefix_window(w, x3, j2);
    let x4 = x3 + j2.len();
    crate::text::lemma_peel(w.skip(x4), k3, dt + (k4 + (j4 + (m1 + cb))));
    crate::text::lemma_prefix_window(w, x4, k3);
    let x5 = x4 + k3.len();
    crate::text::lemma_peel(w.skip(x5), dt, k4 + (j4 + (m1 + cb)));
    crate::text::lemma_prefix_window(w, x5, dt);
    let x6 = x5 + dt.len();
    crate::text::lemma_peel(w.skip(x6), k4, j4 + (m1 + cb));
    crate::text::lemma_prefix_window(w, x6, k4);
    let x7 = x6 + k4.len();
    crate::text::lemma_peel(w.skip(x7), j4, m1 + cb);
    crate::text::lemma_prefix_window(w, x7, j4);
    let x8 = x7 + j4.len();
    reveal_strlit(",\"correlationId\":");
    reveal_strlit("}");
    match env.correlation_id {
        Some(c) => {
            lemma_add_assoc(",\"correlationId\":"@, spec_json_string(c@), cb);
            crate::text::lemma_peel(w.skip(x8), ",\"correlationId\":"@, spec_json_string(c@)
                + cb);
            crate::text::lemma_prefix_window(w, x8, ",\"correlationId\":"@);
            crate::text::lemma_peel(w.skip(x8 + ",\"correlationId\":"@.len()), spec_json_string(
                c@), cb);
            crate::text::lemma_prefix_window(w, x8 + ",\"correlationId\":"@.len(),
                spec_json_string(c@));
        },
        None => {
            lemma_add_empty(cb);
            lemma_not_started(w, x8, ",\"correlationId\":"@, cb, 0);
            assert(",\"correlationId\":"@[0] == ',' && cb[0] == '}');
        },
    }
    let x9 = env_p5(env);
    assert(seq_starts_with(w.skip(x9), cb));
    crate::text::lemma_prefix_window(w, x9, cb);
}

#[verifier::rlimit(100)]
fn parse_command_envelope_chars(v: &Vec<char>) -> (r: Option<WsEnvelope<ClientCommand>>)
    ensures
        forall|env: WsEnvelope<ClientCommand>|
            #![trigger spec_print_command_envelope(env)]
            v@ == spec_print_command_envelope(env) ==> (r matches Some(out) && cmd_env_like(
                out,
                env,
            )),
{
    proof {
        assert forall|env: WsEnvelope<ClientCommand>| v@ == spec_print_command_envelope(
            env,
        ) implies field_at(v@, 0, "{\"id\":"@, env.id@) by {
            lemma_cmd_env_anatomy(v@, env);
        }
    }
    let r1 = parse_field_string(v, 0, "{\"id\":");
    let (id, j) = match r1 {
        Some(p) => p,
        None => {
            return None;
        },
    };
    proof {
        assert forall|env: WsEnvelope<ClientCommand>| v@ == spec_print_command_envelope(
            env,
        ) implies id@ == env.id@ && j + ",\"type\":"@.len() <= v@.len() && v@.subrange(
            j as int,
            j + ",\"type\":"@.len(),
        ) == ",\"type\":"@ && j + ",\"type\":"@.len() == env_p1(env) by {
            lemma_cmd_env_anatomy(v@, env);
        }
    }
    let r2 = expect_lit(v, j, ",\"type\":");
    let j = match r2 {
        Some(p) => p,
        None => {
            return None;
        },
    };
    proof {
        assert forall|env: WsEnvelope<ClientCommand>| v@ == spec_print_command_envelope(
            env,
        ) implies crate::wire::spec_parse_string(v@, j as int) == Some::<(Seq<char>, int)>(
            (
                spec_command_tag(env.payload),
                env_p1(env) + spec_json_string(spec_command_tag(env.payload)).len(),
            ),
        ) by {
            lemma_cmd_env_anatomy(v@, env);
            crate::text::lemma_prefix_window(v@, env_p1(env), spec_json_string(
                spec_command_tag(env.payload)));
            crate::wire::lemma_parse_string_inverts(v@, j as int, spec_command_tag(env.payload));
        }
    }
    let r3 = parse_json_string(v, j);
    let (tag, j) = match r3 {
        Some(p) => p,
        None => {
            return None;
        },
    };
    proof {
        assert forall|env: WsEnvelope<ClientCommand>| v@ == spec_print_command_envelope(
            env,
        ) implies tag@ == spec_command_tag(env.payload) && j + ",\"data\":"@.len() <= v@.len()
            && v@.subrange(j as int, j + ",\"data\":"@.len()) == ",\"data\":"@ && j
            + ",\"data\":"@.len() == env_p2(env) by {
            lemma_cmd_env_anatomy(v@, env);
        }
    }
    let r4 = expect_lit(v, j, ",\"data\":");
    let j = match r4 {
        Some(p) => p,
        None => {
            return None;
        },
    };
    proof {
        assert forall|env: WsEnvelope<ClientCommand>| v@ == spec_print_command_envelope(
            env,
        ) implies command_data_at(v@, j as int, env.payload) && tag@ == spec_command_tag(
            env.payload,
        ) by {
            lemma_cmd_env_anatomy(v@, env);
        }
    }
    let r5 = parse_command_data_at(v, j, &tag);
    let (payload, j) = match r5 {
        Some(p) => p,
        None => {
            return None;
        },
    };
    proof {
        assert forall|env: WsEnvelope<ClientCommand>| v@ == spec_print_command_envelope(
            env,
        ) implies command_like(payload, env.payload) && j == env_p3(env) && field_at(
            v@,
            env_p3(env),
            ",\"ts\":"@,
            env.ts@,
        ) by {
            lemma_cmd_env_anatomy(v@, env);
        }
    }
    let r6 = parse_field_string(v, j, ",\"ts\":");
    let (ts, j) = match r6 {
        Some(p) => p,
        None => {
            return None;
        },
    };
    proof {
        assert forall|env: WsEnvelope<ClientCommand>| v@ == spec_print_command_envelope(
            env,
        ) implies ts@ == env.ts@ && j == env_p4(env) && (match env.correlation_id {
            Some(c) => field_at(v@, env_p4(env), ",\"correlationId\":"@, c@),
            None => lit_absent(v@, env_p4(env), ",\"correlationId\":"@),
        }) by {
            lemma_cmd_env_anatomy(v@, env);
        }
    }
    let r7 = parse_field_string(v, j, ",\"correlationId\":");
    let (correlation_id, j) = match r7 {
        Some((c, j2)) => (Some(c), j2),
        None => (None, j),
    };
    proof {
        assert forall|env: WsEnvelope<ClientCommand>| v@ == spec_print_command_envelope(
            env,
        ) implies (match (correlation_id, env.correlation_id) {
            (Some(a), Some(b)) => a@ == b@,
            (None, None) => true,
            _ => false,
        }) && j == env_p5(env) && j + "}"@.len() <= v@.len() && v@.subrange(
            j as int,
            j + "}"@.len(),
        ) == "}"@ && env_p5(env) + 1 == v@.len() by {
            lemma_cmd_env_anatomy(v@, env);
            reveal_strlit("}");
        }
    }
    let r8 = expect_lit(v, j, "}");
    let j = match r8 {
        Some(p) => p,
        None => {
            return None;
        },
    };
    if j == v.len() {
        Some(WsEnvelope { id, payload, ts, correlation_id })
    } else {
        proof {
            assert forall|env: WsEnvelope<ClientCommand>| v@ == spec_print_command_envelope(
                env,
            ) implies false by {
                lemma_cmd_env_anatomy(v@, env);
            }
        }
        None
    }
}

fn avail_from_tag(tag: &Vec<char>) -> (r: Option<Availability>)
    ensures
        r matches Some(a) ==> spec_avail_tag(a) == tag@,
        forall|a: Availability| tag@ == spec_avail_tag(a) ==> r == Some(a),
{
    proof {
        reveal_strlit("online");
        reveal_strlit("away");
        reveal_strlit("dnd");
        reveal_strlit("offline");
        assert("online"@.len() == 6 && "away"@.len() == 4 && "dnd"@.len() == 3 && "offline"@.len()
            == 7);
    }
    let online = str_to_chars("online");
    let away = str_to_chars("away");
    let dnd = str_to_chars("dnd");
    let offline = str_to_chars("offline");
    if chars_eq(tag, &online) {
        Some(Availability::Online)
    } else if chars_eq(tag, &away) {
        Some(Availability::Away)
    } else if chars_eq(tag, &dnd) {
        Some(Availability::Dnd)
    } else if chars_eq(tag, &offline) {
        Some(Availability::Offline)
    } else {
        None
    }
}

/// Field-by-field view equality of presence values.
pub open spec fn presence_like(a: Presence, b: Presence) -> bool {
    &&& a.availability == b.availability
    &&& match (a.status, b.status) {
        (Some(x), Some(y)) => x@ == y@,
        (None, None) => true,
        _ => false,
    }
    &&& match (a.last_seen, b.last_seen) {
        (Some(x), Some(y)) => x@ == y@,
        (None, None) => true,
        _ => false,
    }
}

/// The hypothesis that the text at `i` carries the printed form of `p`.
pub open spec fn presence_at(w: Seq<char>, i: int, p: Presence) -> bool {
    0 <= i <= w.len() && seq_starts_with(w.skip(i), spec_print_presence(p))
}

/// The position of the status slot of a printed presence.
pub open spec fn pr_q0(i: int, p: Presence) -> int {
    i + "{\"availability\":"@.len() + spec_json_string(spec_avail_tag(p.availability)).len()
}

/// The position of the last-seen slot.
pub open spec fn pr_q1(i: int, p: Presence) -> int {
    pr_q0(i, p) + (match p.status {
        Some(t) => ",\"status\":"@.len() + spec_json_string(t@).len(),
        None => 0,
    })
}

/// The position of the closing brace of a printed presence.
pub open spec fn pr_q2(i: int, p: Presence) -> int {
    pr_q1(i, p) + (match p.last_seen {
        Some(t) => ",\"lastSeen\":"@.len() + spec_json_string(t@).len(),
        None => 0,
    })
}

/// Where each piece of a printed presence object lies.
#[verifier::rlimit(100)]
proof fn lemma_presence_anatomy(w: Seq<char>, i: int, p: Presence)
    requires
        presence_at(w, i, p),
    ensures
        i + "{\"availability\":"@.len() <= w.len() && w.subrange(
            i,
            i + "{\"availability\":"@.len(),
        ) == "{\"availability\":"@,
        seq_starts_with(
            w.skip(i + "{\"availability\":"@.len()),
            spec_json_string(spec_avail_tag(p.availability)),
        ),
        match p.status {
            Some(t) => field_at(w, pr_q0(i, p), ",\"status\":"@, t@),
            None => lit_absent(w, pr_q0(i, p), ",\"status\":"@),
        },
        match p.last_seen {
            Some(t) => field_at(w, pr_q1(i, p), ",\"lastSeen\":"@, t@),
            None => lit_absent(w, pr_q1(i, p), ",\"lastSeen\":"@),
        },
        pr_q2(i, p) + 1 <= w.len() && w.subrange(pr_q2(i, p), pr_q2(i, p) + 1) == "}"@,
        pr_q2(i, p) + 1 == i + spec_print_presence(p).len(),
{
    let ka = "{\"availability\":"@;
    let ja = spec_json_string(spec_avail_tag(p.availability));
    let skey = ",\"status\":"@;
    let lkey = ",\"lastSeen\":"@;
    let m1 = match p.status {
        Some(t) => skey + spec_json_string(t@),
        None => Seq::<char>::empty(),
    };
    let m2 = match p.last_seen {
        Some(t) => lkey + spec_json_string(t@),
        None => Seq::<char>::empty(),
    };
    let cb = "}"@;
    let pr = spec_print_presence(p);
    assert(pr == ka + ja + m1 + m2 + cb);
    lemma_add_assoc(ka + ja + m1, m2, cb);
    lemma_add_assoc(ka + ja, m1, m2 + cb);
    lemma_add_assoc(ka, ja, m1 + (m2 + cb));
    assert(pr == ka + (ja + (m1 + (m2 + cb))));
    crate::text::lemma_peel(w.skip(i), ka, ja + (m1 + (m2 + cb)));
    crate::text::lemma_prefix_window(w, i, ka);
    let x1 = i + ka.len();
    crate::text::lemma_peel(w.skip(x1), ja, m1 + (m2 + cb));
    crate::text::lemma_prefix_window(w, x1, ja);
    let q0 = pr_q0(i, p);
    assert(seq_starts_with(w.skip(q0), m1 + (m2 + cb)));
    reveal_strlit(",\"status\":");
    reveal_strlit(",\"lastSeen\":");
    reveal_strlit("}");
    assert(skey[2] == 's' && lkey[2] == 'l' && skey[0] == ',' && lkey[0] == ',' && cb[0] == '}');
    match p.status {
        Some(t) => {
            lemma_add_assoc(skey, spec_json_string(t@), m2 + cb);
            crate::text::lemma_peel(w.skip(q0), skey, spec_json_string(t@) + (m2 + cb));
            crate::text::lemma_prefix_window(w, q0, skey);
            crate::text::lemma_peel(w.skip(q0 + skey.len()), spec_json_string(t@), m2 + cb);
            crate::text::lemma_prefix_window(w, q0 + skey.len(), spec_json_string(t@));
        },
        None => {
            lemma_add_empty(m2 + cb);
            match p.last_seen {
                Some(t) => {
                    lemma_add_assoc(lkey, spec_json_string(t@), cb);
                    crate::text::lemma_peel(w.skip(q0), lkey, spec_json_string(t@) + cb);
                    lemma_not_started(w, q0, skey, lkey, 2);
                },
                None => {
                    lemma_add_empty(cb);
                    lemma_not_started(w, q0, skey, cb, 0);
                },
            }
        },
    }
    let q1 = pr_q1(i, p);
    assert(seq_starts_with(w.skip(q1), m2 + cb));
    match p.last_seen {
        Some(t) => {
            lemma_add_assoc(lkey, spec_json_string(t@), cb);
            crate::text::lemma_peel(w.skip(q1), lkey, spec_json_string(t@) + cb);
            crate::text::lemma_prefix_window(w, q1, lkey);
            crate::text::lemma_peel(w.skip(q1 + lkey.len()), spec_json_string(t@), cb);
            crate::text::lemma_prefix_window(w, q1 + lkey.len(), spec_json_string(t@));
        },
        None => {
            lemma_add_empty(cb);
            lemma_not_started(w, q1, lkey, cb, 0);
        },
    }
    let q2 = pr_q2(i, p);
    assert(seq_starts_with(w.skip(q2), cb));
    crate::text::lemma_prefix_window(w, q2, cb);
}

#[verifier::rlimit(100)]
fn parse_presence_at(v: &Vec<char>, i: usize) -> (r: Option<(Presence, usize)>)
    requires
        i <= v@.len(),
    ensures
        r matches Some((_, j)) ==> i < j <= v@.len(),
        forall|p: Presence| #[trigger] presence_at(v@, i as int, p) ==> (r matches Some((out, j))
            && presence_like(out, p) && j == i + spec_print_presence(p).len()),
{
    proof {
        assert forall|p: Presence| presence_at(v@, i as int, p) implies i
            + "{\"availability\":"@.len() <= v@.len() && v@.subrange(
            i as int,
            i + "{\"availability\":"@.len(),
        ) == "{\"availability\":"@ by {
            lemma_presence_anatomy(v@, i as int, p);
        }
    }
    let r1 = expect_lit(v, i, "{\"availability\":");
    let j = match r1 {
        Some(p) => p,
        None => {
            return None;
        },
    };
    proof {
        assert forall|p: Presence| presence_at(v@, i as int, p) implies
            crate::wire::spec_parse_string(v@, j as int) == Some::<(Seq<char>, int)>(
            (spec_avail_tag(p.availability), pr_q0(i as int, p)),
        ) by {
            lemma_presence_anatomy(v@, i as int, p);
            crate::text::lemma_prefix_window(v@, j as int, spec_json_string(
                spec_avail_tag(p.availability)));
            crate::wire::lemma_parse_string_inverts(v@, j as int, spec_avail_tag(p.availability));
        }
    }
    let r2 = parse_json_string(v, j);
    let (avail_text, j) = match r2 {
        Some(p) => p,
        None => {
            return None;
        },
    };
    let r3 = avail_from_tag(&avail_text);
    let availability = match r3 {
        Some(a) => a,
        None => {
            proof {
                assert forall|p: Presence| presence_at(v@, i as int, p) implies false by {
                    lemma_presence_anatomy(v@, i as int, p);
                }
            }
            return None;
        },
    };
    proof {
        assert forall|p: Presence| presence_at(v@, i as int, p) implies availability
            == p.availability && j == pr_q0(i as int, p) && (match p.status {
            Some(t) => field_at(v@, pr_q0(i as int, p), ",\"status\":"@, t@),
            None => lit_absent(v@, pr_q0(i as int, p), ",\"status\":"@),
        }) by {
            lemma_presence_anatomy(v@, i as int, p);
        }
    }
    let r4 = parse_field_string(v, j, ",\"status\":");
    let (status, j) = match r4 {
        Some((t, j2)) => (Some(t), j2),
        None => (None, j),
    };
    proof {
        assert forall|p: Presence| presence_at(v@, i as int, p) implies (match (
            status,
            p.status,
        ) {
            (Some(a), Some(b)) => a@ == b@,
            (None, None) => true,
            _ => false,
        }) && j == pr_q1(i as int, p) && (match p.last_seen {
            Some(t) => field_at(v@, pr_q1(i as int, p), ",\"lastSeen\":"@, t@),
            None => lit_absent(v@, pr_q1(i as int, p), ",\"lastSeen\":"@),
        }) by {
            lemma_presence_anatomy(v@, i as int, p);
        }
    }
    let r5 = parse_field_string(v, j, ",\"lastSeen\":");
    let (last_seen, j) = match r5 {
        Some((t, j2)) => (Some(t), j2),
        None => (None, j),
    };
    proof {
        assert forall|p: Presence| presence_at(v@, i as int, p) implies (match (
            last_seen,
            p.last_seen,
        ) {
            (Some(a), Some(b)) => a@ == b@,
            (None, None) => true,
            _ => false,
        }) && j == pr_q2(i as int, p) && j + "}"@.len() <= v@.len() && v@.subrange(
            j as int,
            j + "}"@.len(),
        ) == "}"@ && pr_q2(i as int, p) + 1 == i + spec_print_presence(p).len() by {
            lemma_presence_anatomy(v@, i as int, p);
            reveal_strlit("}");
        }
    }
    let r6 = expect_lit(v, j, "}");
    let j = match r6 {
        Some(p) => p,
        None => {
            proof {
                assert forall|p: Presence| presence_at(v@, i as int, p) implies false by {
                    lemma_presence_anatomy(v@, i as int, p);
                    reveal_strlit("}");
                }
            }
            return None;
        },
    };
    if j <= i {
        proof {
            assert forall|p: Presence| presence_at(v@, i as int, p) implies false by {
                lemma_presence_anatomy(v@, i as int, p);
            }
        }
        return None;
    }
    proof {
        reveal_strlit("}");
        assert forall|p: Presence| presence_at(v@, i as int, p) implies (match (
            last_seen,
            p.last_seen,
        ) {
            (Some(a), Some(b)) => a@ == b@,
            (None, None) => true,
            _ => false,
        }) && j == i + spec_print_presence(p).len() by {
            lemma_presence_anatomy(v@, i as int, p);
        }
    }
    Some((Presence { availability, status, last_seen }, j))
}

/// Field-by-field view equality of wire messages. The author is compared
/// by the string it writes on the wire, since both reference forms print
/// identically.
pub open spec fn bm_like(a: BaseMessage, b: BaseMessage) -> bool {
    &&& a.id@ == b.id@
    &&& spec_author_str(a.author) == spec_author_str(b.author)
    &&& a.message_type == b.message_type
    &&& match (a.title, b.title) {
        (Some(x), Some(y)) => x@ == y@,
        (None, None) => true,
        _ => false,
    }
    &&& a.content.text@ == b.content.text@
    &&& a.content.mime@ == b.content.mime@
    &&& attachments_like(a.attachments@, b.attachments@)
    &&& a.created_at@ == b.created_at@
    &&& match (a.parent_id, b.parent_id) {
        (Some(x), Some(y)) => x@ == y@,
        (None, None) => true,
        _ => false,
    }
    &&& a.parent_message_type == b.parent_message_type
}

/// The hypothesis that the text at `i` carries the printed form of `m`.
pub open spec fn bm_at(w: Seq<char>, i: int, m: BaseMessage) -> bool {
    0 <= i <= w.len() && seq_starts_with(w.skip(i), spec_print_base_message(m))
}

/// The position of the title slot of a printed message.
pub open spec fn bm_q0(i: int, m: BaseMessage) -> int {
    i + "{\"id\":"@.len() + spec_json_string(m.id@).len() + ",\"author\":"@.len()
        + spec_json_string(spec_author_str(m.author)).len() + ",\"type\":"@.len()
        + spec_json_string(spec_mt_tag(m.message_type)).len()
}

/// The position of the content section.
pub open spec fn bm_q1(i: int, m: BaseMessage) -> int {
    bm_q0(i, m) + (match m.title {
        Some(t) => ",\"title\":"@.len() + spec_json_string(t@).len(),
        None => 0,
    })
}

/// The position of the parent-id slot.
pub open spec fn bm_q2(i: int, m: BaseMessage) -> int {
    bm_q1(i, m) + ",\"content\":{\"text\":"@.len() + spec_json_string(m.content.text@).len()
        + ",\"mime\":"@.len() + spec_json_string(m.content.mime@).len()
        + "},\"attachments\":"@.len() + spec_print_attachments(m.attachments@).len()
        + ",\"createdAt\":"@.len() + spec_json_string(m.created_at@).len()
}

/// The position of the parent-kind slot.
pub open spec fn bm_q3(i: int, m: BaseMessage) -> int {
    bm_q2(i, m) + (match m.parent_id {
        Some(t) => ",\"parentId\":"@.len() + spec_json_string(t@).len(),
        None => 0,
    })
}

/// The position of the closing brace of a printed message.
pub open spec fn bm_q4(i: int, m: BaseMessage) -> int {
    bm_q3(i, m) + (match m.parent_message_type {
        Some(t) => ",\"parentMessageType\":"@.len() + spec_json_string(spec_mt_tag(t)).len(),
        None => 0,
    })
}

/// The optional parent-id piece of a printed message.
pub open spec fn bm_m2(m: BaseMessage) -> Seq<char> {
    match m.parent_id {
        Some(t) => ",\"parentId\":"@ + spec_json_string(t@),
        None => Seq::<char>::empty(),
    }
}

/// The optional parent-kind piece of a printed message.
pub open spec fn bm_m3(m: BaseMessage) -> Seq<char> {
    match m.parent_message_type {
        Some(t) => ",\"parentMessageType\":"@ + spec_json_string(spec_mt_tag(t)),
        None => Seq::<char>::empty(),
    }
}

/// Walks the printed message from `i`, yielding every piece window; the
/// two anatomy lemmas below re-state slices of this for their parsers.
#[verifier::rlimit(100)]
proof fn lemma_bm_walk(w: Seq<char>, i: int, m: BaseMessage)
    requires
        bm_at(w, i, m),
    ensures
        field_at(w, i, "{\"id\":"@, m.id@),
        field_at(
            w,
            i + "{\"id\":"@.len() + spec_json_string(m.id@).len(),
            ",\"author\":"@,
            spec_author_str(m.author),
        ),
        ({
            let pt = i + "{\"id\":"@.len() + spec_json_string(m.id@).len()
                + ",\"author\":"@.len() + spec_json_string(spec_author_str(m.author)).len();
            &&& pt + ",\"type\":"@.len() <= w.len()
            &&& w.subrange(pt, pt + ",\"type\":"@.len()) == ",\"type\":"@
            &&& seq_starts_with(
                w.skip(pt + ",\"type\":"@.len()),
                spec_json_string(spec_mt_tag(m.message_type)),
            )
        }),
        match m.title {
            Some(t) => field_at(w, bm_q0(i, m), ",\"title\":"@, t@),
            None => lit_absent(w, bm_q0(i, m), ",\"title\":"@),
        },
        field_at(w, bm_q1(i, m), ",\"content\":{\"text\":"@, m.content.text@),
        field_at(
            w,
            bm_q1(i, m) + ",\"content\":{\"text\":"@.len() + spec_json_string(
                m.content.text@,
            ).len(),
            ",\"mime\":"@,
            m.content.mime@,
        ),
        ({
            let pa = bm_q1(i, m) + ",\"content\":{\"text\":"@.len() + spec_json_string(
                m.content.text@,
            ).len() + ",\"mime\":"@.len() + spec_json_string(m.content.mime@).len();
            &&& pa + "},\"attachments\":"@.len() <= w.len()
            &&& w.subrange(pa, pa + "},\"attachments\":"@.len()) == "},\"attachments\":"@
            &&& attachments_array_at(w, pa + "},\"attachments\":"@.len(), m.attachments@)
            &&& field_at(
                w,
                pa + "},\"attachments\":"@.len() + spec_print_attachments(m.attachments@).len(),
                ",\"createdAt\":"@,
                m.created_at@,
            )
        }),
        seq_starts_with(w.skip(bm_q2(i, m)), bm_m2(m) + (bm_m3(m) + "}"@)),
        bm_q4(i, m) + 1 == i + spec_print_base_message(m).len(),
        bm_q4(i, m) + 1 <= w.len(),
{
    let k1 = "{\"id\":"@;
    let j1 = spec_json_string(m.id@);
    let k2 = ",\"author\":"@;
    let j2 = spec_json_string(spec_author_str(m.author));
    let k3 = ",\"type\":"@;
    let j3 = spec_json_string(spec_mt_tag(m.message_type));
    let tkey = ",\"title\":"@;
    let m1 = match m.title {
        Some(t) => tkey + spec_json_string(t@),
        None => Seq::<char>::empty(),
    };
    let kc = ",\"content\":{\"text\":"@;
    let jt = spec_json_string(m.content.text@);
    let km = ",\"mime\":"@;
    let jm = spec_json_string(m.content.mime@);
    let ka = "},\"attachments\":"@;
    let ja = spec_print_attachments(m.attachments@);
    let kd = ",\"createdAt\":"@;
    let jd = spec_json_string(m.created_at@);
    let m2 = bm_m2(m);
    let m3 = bm_m3(m);
    let cb = "}"@;
    let pr = spec_print_base_message(m);
    assert(pr == k1 + j1 + k2 + j2 + k3 + j3 + m1 + kc + jt + km + jm + ka + ja + kd + jd + m2 + m3
        + cb);
    let t0 = cb;
    let t1 = m3 + t0;
    let t2 = m2 + t1;
    let t3 = jd + t2;
    let t4 = kd + t3;
    let t5 = ja + t4;
    let t6 = ka + t5;
    let t7 = jm + t6;
    let t8 = km + t7;
    let t9 = jt + t8;
    let t10 = kc + t9;
    let t11 = m1 + t10;
    let t12 = j3 + t11;
    let t13 = k3 + t12;
    let t14 = j2 + t13;
    let t15 = k2 + t14;
    let t16 = j1 + t15;
    lemma_add_assoc(k1 + j1 + k2 + j2 + k3 + j3 + m1 + kc + jt + km + jm + ka + ja + kd + jd + m2,
        m3, cb);
    lemma_add_assoc(k1 + j1 + k2 + j2 + k3 + j3 + m1 + kc + jt + km + jm + ka + ja + kd + jd, m2,
        t1);
    lemma_add_assoc(k1 + j1 + k2 + j2 + k3 + j3 + m1 + kc + jt + km + jm + ka + ja + kd, jd, t2);
    lemma_add_assoc(k1 + j1 + k2 + j2 + k3 + j3 + m1 + kc + jt + km + jm + ka + ja, kd, t3);
    lemma_add_assoc(k1 + j1 + k2 + j2 + k3 + j3 + m1 + kc + jt + km + jm + ka, ja, t4);
    lemma_add_assoc(k1 + j1 + k2 + j2 + k3 + j3 + m1 + kc + jt + km + jm, ka, t5);
    lemma_add_assoc(k1 + j1 + k2 + j2 + k3 + j3 + m1 + kc + jt + km, jm, t6);
    lemma_add_assoc(k1 + j1 + k2 + j2 + k3 + j3 + m1 + kc + jt, km, t7);
    lemma_add_assoc(k1 + j1 + k2 + j2 + k3 + j3 + m1 + kc, jt, t8);
    lemma_add_assoc(k1 + j1 + k2 + j2 + k3 + j3 + m1, kc, t9);
    lemma_add_assoc(k1 + j1 + k2 + j2 + k3 + j3, m1, t10);
    lemma_add_assoc(k1 + j1 + k2 + j2 + k3, j3, t11);
    lemma_add_assoc(k1 + j1 + k2 + j2, k3, t12);
    lemma_add_assoc(k1 + j1 + k2, j2, t13);
    lemma_add_assoc(k1 + j1, k2, t14);
    lemma_add_assoc(k1, j1, t15);
    assert(pr == k1 + t16);
    crate::text::lemma_peel(w.skip(i), k1, t16);
    crate::text::lemma_prefix_window(w, i, k1);
    let x1 = i + k1.len();
    crate::text::lemma_peel(w.skip(x1), j1, t15);
    crate::text::lemma_prefix_window(w, x1, j1);
    let x2 = x1 + j1.len();
    crate::text::lemma_peel(w.skip(x2), k2, t14);
    crate::text::lemma_prefix_window(w, x2, k2);
    let x3 = x2 + k2.len();
    crate::text::lemma_peel(w.skip(x3), j2, t13);
    crate::text::lemma_prefix_window(w, x3, j2);
    let x4 = x3 + j2.len();
    crate::text::lemma_peel(w.skip(x4), k3, t12);
    crate::text::lemma_prefix_window(w, x4, k3);
    let x5 = x4 + k3.len();
    crate::text::lemma_peel(w.skip(x5), j3, t11);
    crate::text::lemma_prefix_window(w, x5, j3);
    let q0 = bm_q0(i, m);
    assert(seq_starts_with(w.skip(q0), t11));
    reveal_strlit(",\"title\":");
    reveal_strlit(",\"content\":{\"text\":");
    assert(tkey[2] == 't' && kc[2] == 'c');
    match m.title {
        Some(t) => {
            lemma_add_assoc(tkey, spec_json_string(t@), t10);
            crate::text::lemma_peel(w.skip(q0), tkey, spec_json_string(t@) + t10);
            crate::text::lemma_prefix_window(w, q0, tkey);
            crate::text::lemma_peel(w.skip(q0 + tkey.len()), spec_json_string(t@), t10);
            crate::text::lemma_prefix_window(w, q0 + tkey.len(), spec_json_string(t@));
        },
        None => {
            lemma_add_empty(t10);
            crate::text::lemma_peel(w.skip(q0), kc, t9);
            lemma_not_started(w, q0, tkey, kc, 2);
        },
    }
    let q1 = bm_q1(i, m);
    assert(seq_starts_with(w.skip(q1), t10));
    crate::text::lemma_peel(w.skip(q1), kc, t9);
    crate::text::lemma_prefix_window(w, q1, kc);
    let y1 = q1 + kc.len();
    crate::text::lemma_peel(w.skip(y1), jt, t8);
    crate::text::lemma_prefix_window(w, y1, jt);
    let y2 = y1 + jt.len();
    crate::text::lemma_peel(w.skip(y2), km, t7);
    crate::text::lemma_prefix_window(w, y2, km);
    let y3 = y2 + km.len();
    crate::text::lemma_peel(w.skip(y3), jm, t6);
    crate::text::lemma_prefix_window(w, y3, jm);
    let y4 = y3 + jm.len();
    crate::text::lemma_peel(w.skip(y4), ka, t5);
    crate::text::lemma_prefix_window(w, y4, ka);
    let y5 = y4 + ka.len();
    crate::text::lemma_peel(w.skip(y5), ja, t4);
    crate::text::lemma_prefix_window(w, y5, ja);
    let y6 = y5 + ja.len();
    crate::text::lemma_peel(w.skip(y6), kd, t3);
    crate::text::lemma_prefix_window(w, y6, kd);
    let y7 = y6 + kd.len();
    crate::text::lemma_peel(w.skip(y7), jd, t2);
    crate::text::lemma_prefix_window(w, y7, jd);
    let q2 = bm_q2(i, m);
    assert(q2 == y7 + jd.len());
    assert(seq_starts_with(w.skip(q2), t2));
    lemma_add_assoc(m2, m3, cb);
    assert(t2 == m2 + (m3 + cb));
    reveal_strlit("}");
    assert(bm_q3(i, m) == q2 + m2.len());
    assert(bm_q4(i, m) == bm_q3(i, m) + m3.len());
    assert(q2 + t2.len() <= w.len());
}

/// The opening facts of a printed message: id, author, kind, title slot.
proof fn lemma_bm_anatomy_open(w: Seq<char>, i: int, m: BaseMessage)
    requires
        bm_at(w, i, m),
    ensures
        field_at(w, i, "{\"id\":"@, m.id@),
        field_at(
            w,
            i + "{\"id\":"@.len() + spec_json_string(m.id@).len(),
            ",\"author\":"@,
            spec_author_str(m.author),
        ),
        ({
            let pt = i + "{\"id\":"@.len() + spec_json_string(m.id@).len()
                + ",\"author\":"@.len() + spec_json_string(spec_author_str(m.author)).len();
            &&& pt + ",\"type\":"@.len() <= w.len()
            &&& w.subrange(pt, pt + ",\"type\":"@.len()) == ",\"type\":"@
            &&& seq_starts_with(
                w.skip(pt + ",\"type\":"@.len()),
                spec_json_string(spec_mt_tag(m.message_type)),
            )
        }),
        match m.title {
            Some(t) => field_at(w, bm_q0(i, m), ",\"title\":"@, t@),
            None => lit_absent(w, bm_q0(i, m), ",\"title\":"@),
        },
{
    lemma_bm_walk(w, i, m);
}

/// The middle facts of a printed message: content, attachments and the
/// creation timestamp, and where the tail begins.
proof fn lemma_bm_anatomy_mid(w: Seq<char>, i: int, m: BaseMessage)
    requires
        bm_at(w, i, m),
    ensures
        field_at(w, bm_q1(i, m), ",\"content\":{\"text\":"@, m.content.text@),
        field_at(
            w,
            bm_q1(i, m) + ",\"content\":{\"text\":"@.len() + spec_json_string(
                m.content.text@,
            ).len(),
            ",\"mime\":"@,
            m.content.mime@,
        ),
        ({
            let pa = bm_q1(i, m) + ",\"content\":{\"text\":"@.len() + spec_json_string(
                m.content.text@,
            ).len() + ",\"mime\":"@.len() + spec_json_string(m.content.mime@).len();
            &&& pa + "},\"attachments\":"@.len() <= w.len()
            &&& w.subrange(pa, pa + "},\"attachments\":"@.len()) == "},\"attachments\":"@
            &&& attachments_array_at(w, pa + "},\"attachments\":"@.len(), m.attachments@)
            &&& field_at(
                w,
                pa + "},\"attachments\":"@.len() + spec_print_attachments(m.attachments@).len(),
                ",\"createdAt\":"@,
                m.created_at@,
            )
        }),
        bm_q4(i, m) + 1 == i + spec_print_base_message(m).len(),
        bm_q4(i, m) + 1 <= w.len(),
{
    lemma_bm_walk(w, i, m);
}

/// The tail facts of a printed message: the optional parents and the
/// closing brace.
#[verifier::rlimit(100)]
proof fn lemma_bm_anatomy_tail(w: Seq<char>, i: int, m: BaseMessage)
    requires
        bm_at(w, i, m),
    ensures
        match m.parent_id {
            Some(t) => field_at(w, bm_q2(i, m), ",\"parentId\":"@, t@),
            None => lit_absent(w, bm_q2(i, m), ",\"parentId\":"@),
        },
        match m.parent_message_type {
            Some(t) => field_at(w, bm_q3(i, m), ",\"parentMessageType\":"@, spec_mt_tag(t)),
            None => lit_absent(w, bm_q3(i, m), ",\"parentMessageType\":"@),
        },
        bm_q4(i, m) + 1 <= w.len() && w.subrange(bm_q4(i, m), bm_q4(i, m) + 1) == "}"@,
        bm_q4(i, m) + 1 == i + spec_print_base_message(m).len(),
{
    lemma_bm_walk(w, i, m);
    let q2 = bm_q2(i, m);
    let m2 = bm_m2(m);
    let m3 = bm_m3(m);
    let cb = "}"@;
    let pkey = ",\"parentId\":"@;
    let mkey = ",\"parentMessageType\":"@;
    reveal_strlit(",\"parentId\":");
    reveal_strlit(",\"parentMessageType\":");
    reveal_strlit("}");
    assert(pkey[8] == 'I' && mkey[8] == 'M' && pkey[0] == ',' && mkey[0] == ',' && cb[0] == '}');
    match m.parent_id {
        Some(t) => {
            lemma_add_assoc(pkey, spec_json_string(t@), m3 + cb);
            crate::text::lemma_peel(w.skip(q2), pkey, spec_json_string(t@) + (m3 + cb));
            crate::text::lemma_prefix_window(w, q2, pkey);
            crate::text::lemma_peel(w.skip(q2 + pkey.len()), spec_json_string(t@), m3 + cb);
            crate::text::lemma_prefix_window(w, q2 + pkey.len(), spec_json_string(t@));
        },
        None => {
            lemma_add_empty(m3 + cb);
            match m.parent_message_type {
                Some(t) => {
                    lemma_add_assoc(mkey, spec_json_string(spec_mt_tag(t)), cb);
                    crate::text::lemma_peel(w.skip(q2), mkey, spec_json_string(spec_mt_tag(t))
                        + cb);
                    lemma_not_started(w, q2, pkey, mkey, 8);
                },
                None => {
                    lemma_add_empty(cb);
                    lemma_not_started(w, q2, pkey, cb, 0);
                },
            }
        },
    }
    let q3 = bm_q3(i, m);
    assert(seq_starts_with(w.skip(q3), m3 + cb));
    match m.parent_message_type {
        Some(t) => {
            lemma_add_assoc(mkey, spec_json_string(spec_mt_tag(t)), cb);
            crate::text::lemma_peel(w.skip(q3), mkey, spec_json_string(spec_mt_tag(t)) + cb);
            crate::text::lemma_prefix_window(w, q3, mkey);
            crate::text::lemma_peel(w.skip(q3 + mkey.len()), spec_json_string(spec_mt_tag(t)), cb);
            crate::text::lemma_prefix_window(w, q3 + mkey.len(), spec_json_string(spec_mt_tag(t)));
        },
        None => {
            lemma_add_empty(cb);
            lemma_not_started(w, q3, mkey, cb, 0);
        },
    }
    let q4 = bm_q4(i, m);
    assert(seq_starts_with(w.skip(q4), cb));
    crate::text::lemma_prefix_window(w, q4, cb);
}

/// Parses the opening of a message object: its id, author, kind and
/// optional title.
#[verifier::rlimit(100)]
fn parse_bm_opening(v: &Vec<char>, i: usize) -> (r: Option<
    (String, String, MessageType, Option<String>, usize),
>)
    requires
        i <= v@.len(),
    ensures
        r matches Some((_, _, _, _, j)) ==> i < j <= v@.len(),
        forall|m: BaseMessage| #[trigger] bm_at(v@, i as int, m) ==> (r matches Some(
            (id, author_text, mt, title, j),
        ) && id@ == m.id@ && author_text@ == spec_author_str(m.author) && mt == m.message_type
            && (match (title, m.title) {
            (Some(a), Some(b)) => a@ == b@,
            (None, None) => true,
            _ => false,
        }) && j == bm_q1(i as int, m)),
{
    proof {
        assert forall|m: BaseMessage| bm_at(v@, i as int, m) implies field_at(
            v@,
            i as int,
            "{\"id\":"@,
            m.id@,
        ) by {
            lemma_bm_anatomy_open(v@, i as int, m);
        }
    }
    let r1 = parse_field_string(v, i, "{\"id\":");
    let (id, j) = match r1 {
        Some(p) => p,
        None => {
            return None;
        },
    };
    proof {
        assert forall|m: BaseMessage| bm_at(v@, i as int, m) implies id@ == m.id@ && field_at(
            v@,
            j as int,
            ",\"author\":"@,
            spec_author_str(m.author),
        ) by {
            lemma_bm_anatomy_open(v@, i as int, m);
        }
    }
    let r2 = parse_field_string(v, j, ",\"author\":");
    let (author_text, j) = match r2 {
        Some(p) => p,
        None => {
            return None;
        },
    };
    proof {
        assert forall|m: BaseMessage| bm_at(v@, i as int, m) implies author_text@
            == spec_author_str(m.author) && j + ",\"type\":"@.len() <= v@.len() && v@.subrange(
            j as int,
            j + ",\"type\":"@.len(),
        ) == ",\"type\":"@ by {
            lemma_bm_anatomy_open(v@, i as int, m);
        }
    }
    let r3 = expect_lit(v, j, ",\"type\":");
    let j = match r3 {
        Some(p) => p,
        None => {
            return None;
        },
    };
    proof {
        assert forall|m: BaseMessage| bm_at(v@, i as int, m) implies
            crate::wire::spec_parse_string(v@, j as int) == Some::<(Seq<char>, int)>(
            (spec_mt_tag(m.message_type), bm_q0(i as int, m)),
        ) by {
            lemma_bm_anatomy_open(v@, i as int, m);
            crate::text::lemma_prefix_window(v@, j as int, spec_json_string(
                spec_mt_tag(m.message_type)));
            crate::wire::lemma_parse_string_inverts(v@, j as int, spec_mt_tag(m.message_type));
        }
    }
    let r4 = parse_json_string(v, j);
    let (mt_text, j) = match r4 {
        Some(p) => p,
        None => {
            return None;
        },
    };
    let r5 = mt_from_tag(&mt_text);
    let message_type = match r5 {
        Some(mv) => mv,
        None => {
            proof {
                assert forall|m: BaseMessage| bm_at(v@, i as int, m) implies false by {
                    lemma_bm_anatomy_open(v@, i as int, m);
                }
            }
            return None;
        },
    };
    proof {
        assert forall|m: BaseMessage| bm_at(v@, i as int, m) implies message_type
            == m.message_type && j == bm_q0(i as int, m) && (match m.title {
            Some(t) => field_at(v@, bm_q0(i as int, m), ",\"title\":"@, t@),
            None => lit_absent(v@, bm_q0(i as int, m), ",\"title\":"@),
        }) by {
            lemma_bm_anatomy_open(v@, i as int, m);
        }
    }
    let r6 = parse_field_string(v, j, ",\"title\":");
    let (title, j) = match r6 {
        Some((t, j2)) => (Some(t), j2),
        None => (None, j),
    };
    proof {
        assert forall|m: BaseMessage| bm_at(v@, i as int, m) implies (match (title, m.title) {
            (Some(a), Some(b)) => a@ == b@,
            (None, None) => true,
            _ => false,
        }) && j == bm_q1(i as int, m) by {
            lemma_bm_anatomy_open(v@, i as int, m);
        }
    }
    Some((id, author_text, message_type, title, j))
}

/// Parses the body of a message object: its content, attachments and
/// creation timestamp.
#[verifier::rlimit(100)]
fn parse_bm_body(v: &Vec<char>, j: usize, Ghost(i0): Ghost<int>) -> (r: Option<
    (String, String, Vec<Attachment>, String, usize),
>)
    requires
        j <= v@.len(),
    ensures
        r matches Some((_, _, _, _, j2)) ==> j <= j2 <= v@.len(),
        forall|m: BaseMessage| (#[trigger] bm_at(v@, i0, m) && j == bm_q1(i0, m)) ==> (r matches
            Some((text, mime, atts, created_at, j2)) && text@ == m.content.text@ && mime@
            == m.content.mime@ && attachments_like(atts@, m.attachments@) && created_at@
            == m.created_at@ && j2 == bm_q2(i0, m)),
{
    let ghost j_entry: int = j as int;
    proof {
        assert forall|m: BaseMessage| bm_at(v@, i0, m) && j_entry == bm_q1(i0, m) implies field_at(
            v@,
            j_entry,
            ",\"content\":{\"text\":"@,
            m.content.text@,
        ) by {
            lemma_bm_anatomy_mid(v@, i0, m);
        }
    }
    let r1 = parse_field_string(v, j, ",\"content\":{\"text\":");
    let (text, j) = match r1 {
        Some(p) => p,
        None => {
            return None;
        },
    };
    proof {
        assert forall|m: BaseMessage| bm_at(v@, i0, m) && j_entry == bm_q1(i0, m) implies text@
            == m.content.text@ && field_at(v@, j as int, ",\"mime\":"@, m.content.mime@) by {
            lemma_bm_anatomy_mid(v@, i0, m);
        }
    }
    let r2 = parse_field_string(v, j, ",\"mime\":");
    let (mime, j) = match r2 {
        Some(p) => p,
        None => {
            return None;
        },
    };
    proof {
        assert forall|m: BaseMessage| bm_at(v@, i0, m) && j_entry == bm_q1(i0, m) implies mime@
            == m.content.mime@ && j + "},\"attachments\":"@.len() <= v@.len() && v@.subrange(
            j as int,
            j + "},\"attachments\":"@.len(),
        ) == "},\"attachments\":"@ by {
            lemma_bm_anatomy_mid(v@, i0, m);
        }
    }
    let r3 = expect_lit(v, j, "},\"attachments\":");
    let j = match r3 {
        Some(p) => p,
        None => {
            return None;
        },
    };
    proof {
        assert forall|m: BaseMessage| bm_at(v@, i0, m) && j_entry == bm_q1(i0, m) implies
            attachments_array_at(v@, j as int, m.attachments@) by {
            lemma_bm_anatomy_mid(v@, i0, m);
        }
    }
    let r4 = parse_attachments_at(v, j);
    let (attachments, j) = match r4 {
        Some(p) => p,
        None => {
            return None;
        },
    };
    proof {
        assert forall|m: BaseMessage| bm_at(v@, i0, m) && j_entry == bm_q1(i0, m) implies
            attachments_like(attachments@, m.attachments@) && field_at(
            v@,
            j as int,
            ",\"createdAt\":"@,
            m.created_at@,
        ) by {
            lemma_bm_anatomy_mid(v@, i0, m);
        }
    }
    let r5 = parse_field_string(v, j, ",\"createdAt\":");
    let (created_at, j) = match r5 {
        Some(p) => p,
        None => {
            return None;
        },
    };
    proof {
        assert forall|m: BaseMessage| bm_at(v@, i0, m) && j_entry == bm_q1(i0, m) implies
            created_at@ == m.created_at@ && j == bm_q2(i0, m) by {
            lemma_bm_anatomy_mid(v@, i0, m);
        }
    }
    Some((text, mime, attachments, created_at, j))
}

/// Parses the tail of a message object: the optional parents and the
/// closing brace.
#[verifier::rlimit(100)]
fn parse_bm_tail(v: &Vec<char>, j: usize, Ghost(i0): Ghost<int>) -> (r: Option<
    (Option<String>, Option<MessageType>, usize),
>)
    requires
        j <= v@.len(),
    ensures
        r matches Some((_, _, j2)) ==> j <= j2 <= v@.len(),
        forall|m: BaseMessage| (#[trigger] bm_at(v@, i0, m) && j == bm_q2(i0, m)) ==> (r matches
            Some((pid, pmt, j2)) && (match (pid, m.parent_id) {
            (Some(a), Some(b)) => a@ == b@,
            (None, None) => true,
            _ => false,
        }) && pmt == m.parent_message_type && j2 == i0 + spec_print_base_message(m).len()),
{
    let ghost j_entry: int = j as int;
    proof {
        assert forall|m: BaseMessage| bm_at(v@, i0, m) && j_entry == bm_q2(i0, m) implies (match
            m.parent_id {
            Some(t) => field_at(v@, bm_q2(i0, m), ",\"parentId\":"@, t@),
            None => lit_absent(v@, bm_q2(i0, m), ",\"parentId\":"@),
        }) by {
            lemma_bm_anatomy_tail(v@, i0, m);
        }
    }
    let r1 = parse_field_string(v, j, ",\"parentId\":");
    let (parent_id, j) = match r1 {
        Some((t, j2)) => (Some(t), j2),
        None => (None, j),
    };
    proof {
        assert forall|m: BaseMessage| bm_at(v@, i0, m) && j_entry == bm_q2(i0, m) implies (match (
            parent_id,
            m.parent_id,
        ) {
            (Some(a), Some(b)) => a@ == b@,
            (None, None) => true,
            _ => false,
        }) && j == bm_q3(i0, m) && (match m.parent_message_type {
            Some(t) => field_at(v@, bm_q3(i0, m), ",\"parentMessageType\":"@, spec_mt_tag(t)),
            None => lit_absent(v@, bm_q3(i0, m), ",\"parentMessageType\":"@),
        }) by {
            lemma_bm_anatomy_tail(v@, i0, m);
        }
    }
    let r2 = expect_lit(v, j, ",\"parentMessageType\":");
    let (parent_message_type, j) = match r2 {
        Some(j2) => {
            proof {
                assert forall|m: BaseMessage| bm_at(v@, i0, m) && j_entry == bm_q2(
                    i0,
                    m,
                ) implies m.parent_message_type is Some && crate::wire::spec_parse_string(
                    v@,
                    j2 as int,
                ) == Some::<(Seq<char>, int)>(
                    (spec_mt_tag(m.parent_message_type->0), bm_q4(i0, m)),
                ) by {
                    lemma_bm_anatomy_tail(v@, i0, m);
                    match m.parent_message_type {
                        Some(t) => {
                            crate::text::lemma_prefix_window(v@, bm_q3(i0, m),
                                ",\"parentMessageType\":"@);
                            crate::text::lemma_prefix_window(
                                v@,
                                bm_q3(i0, m) + ",\"parentMessageType\":"@.len(),
                                spec_json_string(spec_mt_tag(t)),
                            );
                            crate::wire::lemma_parse_string_inverts(v@, j2 as int, spec_mt_tag(t));
                        },
                        None => {
                            crate::text::lemma_prefix_window(v@, bm_q3(i0, m),
                                ",\"parentMessageType\":"@);
                        },
                    }
                }
            }
            let r3 = parse_json_string(v, j2);
            let (pt_text, j3) = match r3 {
                Some(p) => p,
                None => {
                    return None;
                },
            };
            let r4 = mt_from_tag(&pt_text);
            match r4 {
                Some(mv) => {
                    let pair = (Some(mv), j3);
                    proof {
                        assert forall|m: BaseMessage| bm_at(v@, i0, m) && j_entry == bm_q2(
                            i0,
                            m,
                        ) implies pair.0 == m.parent_message_type && pair.1 == bm_q4(i0, m) by {
                            assert(m.parent_message_type is Some);
                            let mh = m.parent_message_type->0;
                            assert(pt_text@ == spec_mt_tag(mh));
                            assert(j3 == bm_q4(i0, m));
                            assert(r4 == Some(mh));
                        }
                    }
                    pair
                },
                None => {
                    proof {
                        assert forall|m: BaseMessage| bm_at(v@, i0, m) && j_entry == bm_q2(
                            i0,
                            m,
                        ) implies false by {
                            lemma_bm_anatomy_tail(v@, i0, m);
                        }
                    }
                    return None;
                },
            }
        },
        None => {
            let pair = (None::<MessageType>, j);
            proof {
                assert forall|m: BaseMessage| bm_at(v@, i0, m) && j_entry == bm_q2(
                    i0,
                    m,
                ) implies pair.0 == m.parent_message_type && pair.1 == bm_q4(i0, m) by {
                    lemma_bm_anatomy_tail(v@, i0, m);
                    match m.parent_message_type {
                        Some(t) => {
                            crate::text::lemma_prefix_window(v@, bm_q3(i0, m),
                                ",\"parentMessageType\":"@);
                        },
                        None => {},
                    }
                }
            }
            pair
        },
    };
    proof {
        assert forall|m: BaseMessage| bm_at(v@, i0, m) && j_entry == bm_q2(i0, m) implies j
            == bm_q4(i0, m) && j + "}"@.len() <= v@.len() && v@.subrange(
            j as int,
            j + "}"@.len(),
        ) == "}"@ && bm_q4(i0, m) + 1 == i0 + spec_print_base_message(m).len() by {
            lemma_bm_anatomy_tail(v@, i0, m);
            reveal_strlit("}");
        }
    }
    let r5 = expect_lit(v, j, "}");
    let j = match r5 {
        Some(p) => p,
        None => {
            return None;
        },
    };
    proof {
        reveal_strlit("}");
    }
    Some((parent_id, parent_message_type, j))
}

/// Parses a message object as carried in a `message.new` event.
#[verifier::rlimit(100)]
fn parse_base_message_at(v: &Vec<char>, i: usize) -> (r: Option<(BaseMessage, usize)>)
    requires
        i <= v@.len(),
    ensures
        r matches Some((_, j)) ==> i < j <= v@.len(),
        forall|m: BaseMessage| #[trigger] bm_at(v@, i as int, m) ==> (r matches Some((out, j))
            && bm_like(out, m) && j == i + spec_print_base_message(m).len()),
{
    let ro = parse_bm_opening(v, i);
    let (id, author_text, message_type, title, j) = match ro {
        Some(p) => p,
        None => {
            return None;
        },
    };
    let rb = parse_bm_body(v, j, Ghost(i as int));
    let (text, mime, attachments, created_at, j) = match rb {
        Some(p) => p,
        None => {
            return None;
        },
    };
    let rt = parse_bm_tail(v, j, Ghost(i as int));
    let (parent_id, parent_message_type, j) = match rt {
        Some(p) => p,
        None => {
            return None;
        },
    };
    let out = BaseMessage {
        id,
        author: UserRef::Uri(author_text),
        message_type,
        title,
        content: Content { text, mime },
        attachments,
        created_at,
        parent_id,
        parent_message_type,
    };
    proof {
        assert forall|m: BaseMessage| bm_at(v@, i as int, m) implies bm_like(out, m) && j == i
            + spec_print_base_message(m).len() && i < j by {
            lemma_bm_anatomy_mid(v@, i as int, m);
        }
    }
    Some((out, j))
}

/// Field-by-field view equality of events.
pub open spec fn event_like(a: ServerEvent, b: ServerEvent) -> bool {
    match (a, b) {
        (
            ServerEvent::MessageNew { channel_id: x1, message: x2 },
            ServerEvent::MessageNew { channel_id: y1, message: y2 },
        ) => x1@ == y1@ && bm_like(x2, y2),
        (
            ServerEvent::PresenceUpdate { user_handle: x1, user_domain: x2, presence: x3 },
            ServerEvent::PresenceUpdate { user_handle: y1, user_domain: y2, presence: y3 },
        ) => x1@ == y1@ && x2@ == y2@ && presence_like(x3, y3),
        (
            ServerEvent::Ack { nonce: x1, message_id: x2 },
            ServerEvent::Ack { nonce: y1, message_id: y2 },
        ) => x1@ == y1@ && x2@ == y2@,
        (
            ServerEvent::Error { code: x1, message: x2, correlation_id: x3 },
            ServerEvent::Error { code: y1, message: y2, correlation_id: y3 },
        ) => x1@ == y1@ && x2@ == y2@ && (match (x3, y3) {
            (Some(a3), Some(b3)) => a3@ == b3@,
            (None, None) => true,
            _ => false,
        }),
        _ => false,
    }
}

/// The hypothesis that the text at `i` carries the data object of `e`.
pub open spec fn event_data_at(w: Seq<char>, i: int, e: ServerEvent) -> bool {
    0 <= i <= w.len() && seq_starts_with(w.skip(i), spec_print_event_data(e))
}

/// Where the pieces of a printed `message.new` data object lie.
#[verifier::rlimit(100)]
proof fn lemma_ed_message_new(w: Seq<char>, i: int, e: ServerEvent)
    requires
        e is MessageNew,
        event_data_at(w, i, e),
    ensures
        field_at(w, i, "{\"channel_id\":"@, e->MessageNew_channel_id@),
        ({
            let p1 = i + "{\"channel_id\":"@.len() + spec_json_string(
                e->MessageNew_channel_id@,
            ).len();
            let p2 = p1 + ",\"message\":"@.len();
            let p3 = p2 + spec_print_base_message(e->MessageNew_message).len();
            &&& p2 <= w.len() && w.subrange(p1, p2) == ",\"message\":"@
            &&& bm_at(w, p2, e->MessageNew_message)
            &&& p3 + 1 <= w.len() && w.subrange(p3, p3 + 1) == "}"@
            &&& p3 + 1 == i + spec_print_event_data(e).len()
        }),
{
    let k1 = "{\"channel_id\":"@;
    let j1 = spec_json_string(e->MessageNew_channel_id@);
    let k2 = ",\"message\":"@;
    let bm = spec_print_base_message(e->MessageNew_message);
    let cb = "}"@;
    let pr = spec_print_event_data(e);
    assert(pr == k1 + j1 + k2 + bm + cb);
    lemma_add_assoc(k1 + j1 + k2, bm, cb);
    lemma_add_assoc(k1 + j1, k2, bm + cb);
    lemma_add_assoc(k1, j1, k2 + (bm + cb));
    assert(pr == k1 + (j1 + (k2 + (bm + cb))));
    crate::text::lemma_peel(w.skip(i), k1, j1 + (k2 + (bm + cb)));
    crate::text::lemma_prefix_window(w, i, k1);
    let x1 = i + k1.len();
    crate::text::lemma_peel(w.skip(x1), j1, k2 + (bm + cb));
    crate::text::lemma_prefix_window(w, x1, j1);
    let x2 = x1 + j1.len();
    crate::text::lemma_peel(w.skip(x2), k2, bm + cb);
    crate::text::lemma_prefix_window(w, x2, k2);
    let x3 = x2 + k2.len();
    crate::text::lemma_peel(w.skip(x3), bm, cb);
    crate::text::lemma_prefix_window(w, x3, bm);
    let x4 = x3 + bm.len();
    crate::text::lemma_prefix_window(w, x4, cb);
    reveal_strlit("}");
}

/// Where the pieces of a printed `presence.update` data object lie.
#[verifier::rlimit(100)]
proof fn lemma_ed_presence(w: Seq<char>, i: int, e: ServerEvent)
    requires
        e is PresenceUpdate,
        event_data_at(w, i, e),
    ensures
        field_at(w, i, "{\"user_handle\":"@, e->PresenceUpdate_user_handle@),
        ({
            let p1 = i + "{\"user_handle\":"@.len() + spec_json_string(
                e->PresenceUpdate_user_handle@,
            ).len();
            let p2 = p1 + ",\"user_domain\":"@.len() + spec_json_string(
                e->PresenceUpdate_user_domain@,
            ).len();
            let p3 = p2 + ",\"presence\":"@.len();
            let p4 = p3 + spec_print_presence(e->PresenceUpdate_presence).len();
            &&& field_at(w, p1, ",\"user_domain\":"@, e->PresenceUpdate_user_domain@)
            &&& p3 <= w.len() && w.subrange(p2, p3) == ",\"presence\":"@
            &&& presence_at(w, p3, e->PresenceUpdate_presence)
            &&& p4 + 1 <= w.len() && w.subrange(p4, p4 + 1) == "}"@
            &&& p4 + 1 == i + spec_print_event_data(e).len()
        }),
{
    let k1 = "{\"user_handle\":"@;
    let j1 = spec_json_string(e->PresenceUpdate_user_handle@);
    let k2 = ",\"user_domain\":"@;
    let j2 = spec_json_string(e->PresenceUpdate_user_domain@);
    let k3 = ",\"presence\":"@;
    let pp = spec_print_presence(e->PresenceUpdate_presence);
    let cb = "}"@;
    let pr = spec_print_event_data(e);
    assert(pr == k1 + j1 + k2 + j2 + k3 + pp + cb);
    lemma_add_assoc(k1 + j1 + k2 + j2 + k3, pp, cb);
    lemma_add_assoc(k1 + j1 + k2 + j2, k3, pp + cb);
    lemma_add_assoc(k1 + j1 + k2, j2, k3 + (pp + cb));
    lemma_add_assoc(k1 + j1, k2, j2 + (k3 + (pp + cb)));
    lemma_add_assoc(k1, j1, k2 + (j2 + (k3 + (pp + cb))));
    assert(pr == k1 + (j1 + (k2 + (j2 + (k3 + (pp + cb))))));
    crate::text::lemma_peel(w.skip(i), k1, j1 + (k2 + (j2 + (k3 + (pp + cb)))));
    crate::text::lemma_prefix_window(w, i, k1);
    let x1 = i + k1.len();
    crate::text::lemma_peel(w.skip(x1), j1, k2 + (j2 + (k3 + (pp + cb))));
    crate::text::lemma_prefix_window(w, x1, j1);
    let x2 = x1 + j1.len();
    crate::text::lemma_peel(w.skip(x2), k2, j2 + (k3 + (pp + cb)));
    crate::text::lemma_prefix_window(w, x2, k2);
    let x3 = x2 + k2.len();
    crate::text::lemma_peel(w.skip(x3), j2, k3 + (pp + cb));
    crate::text::lemma_prefix_window(w, x3, j2);
    let x4 = x3 + j2.len();
    crate::text::lemma_peel(w.skip(x4), k3, pp + cb);
    crate::text::lemma_prefix_window(w, x4, k3);
    let x5 = x4 + k3.len();
    crate::text::lemma_peel(w.skip(x5), pp, cb);
    crate::text::lemma_prefix_window(w, x5, pp);
    let x6 = x5 + pp.len();
    crate::text::lemma_prefix_window(w, x6, cb);
    reveal_strlit("}");
}

/// Where the pieces of a printed `ack` data object lie.
proof fn lemma_ed_ack(w: Seq<char>, i: int, e: ServerEvent)
    requires
        e is Ack,
        event_data_at(w, i, e),
    ensures
        field_at(w, i, "{\"nonce\":"@, e->Ack_nonce@),
        ({
            let p1 = i + "{\"nonce\":"@.len() + spec_json_string(e->Ack_nonce@).len();
            let p2 = p1 + ",\"message_id\":"@.len() + spec_json_string(e->Ack_message_id@).len();
            &&& field_at(w, p1, ",\"message_id\":"@, e->Ack_message_id@)
            &&& p2 + 1 <= w.len() && w.subrange(p2, p2 + 1) == "}"@
            &&& p2 + 1 == i + spec_print_event_data(e).len()
        }),
{
    let k1 = "{\"nonce\":"@;
    let j1 = spec_json_string(e->Ack_nonce@);
    let k2 = ",\"message_id\":"@;
    let j2 = spec_json_string(e->Ack_message_id@);
    let cb = "}"@;
    let pr = spec_print_event_data(e);
    assert(pr == k1 + j1 + k2 + j2 + cb);
    lemma_add_assoc(k1 + j1 + k2, j2, cb);
    lemma_add_assoc(k1 + j1, k2, j2 + cb);
    lemma_add_assoc(k1, j1, k2 + (j2 + cb));
    assert(pr == k1 + (j1 + (k2 + (j2 + cb))));
    crate::text::lemma_peel(w.skip(i), k1, j1 + (k2 + (j2 + cb)));
    crate::text::lemma_prefix_window(w, i, k1);
    let x1 = i + k1.len();
    crate::text::lemma_peel(w.skip(x1), j1, k2 + (j2 + cb));
    crate::text::lemma_prefix_window(w, x1, j1);
    let x2 = x1 + j1.len();
    crate::text::lemma_peel(w.skip(x2), k2, j2 + cb);
    crate::text::lemma_prefix_window(w, x2, k2);
    let x3 = x2 + k2.len();
    crate::text::lemma_peel(w.skip(x3), j2, cb);
    crate::text::lemma_prefix_window(w, x3, j2);
    let x4 = x3 + j2.len();
    crate::text::lemma_prefix_window(w, x4, cb);
    reveal_strlit("}");
}

/// Where the pieces of a printed `error` data object lie. An absent
/// correlation id is written out as `null`.
#[verifier::rlimit(100)]
proof fn lemma_ed_error(w: Seq<char>, i: int, e: ServerEvent)
    requires
        e is Error,
        event_data_at(w, i, e),
    ensures
        field_at(w, i, "{\"code\":"@, e->Error_code@),
        ({
            let p1 = i + "{\"code\":"@.len() + spec_json_string(e->Error_code@).len();
            let p2 = p1 + ",\"message\":"@.len() + spec_json_string(e->Error_message@).len();
            let p3 = p2 + ",\"correlation_id\":"@.len();
            let p4 = p3 + (match e->Error_correlation_id {
                Some(c) => spec_json_string(c@).len() as int,
                None => "null"@.len() as int,
            });
            &&& field_at(w, p1, ",\"message\":"@, e->Error_message@)
            &&& p3 <= w.len() && w.subrange(p2, p3) == ",\"correlation_id\":"@
            &&& match e->Error_correlation_id {
                Some(c) => seq_starts_with(w.skip(p3), spec_json_string(c@)) && lit_absent(
                    w,
                    p3,
                    "null"@,
                ),
                None => p3 + "null"@.len() <= w.len() && w.subrange(
                    p3,
                    p3 + "null"@.len(),
                ) == "null"@,
            }
            &&& p4 + 1 <= w.len() && w.subrange(p4, p4 + 1) == "}"@
            &&& p4 + 1 == i + spec_print_event_data(e).len()
        }),
{
    let k1 = "{\"code\":"@;
    let j1 = spec_json_string(e->Error_code@);
    let k2 = ",\"message\":"@;
    let j2 = spec_json_string(e->Error_message@);
    let k3 = ",\"correlation_id\":"@;
    let mc = match e->Error_correlation_id {
        Some(c) => spec_json_string(c@),
        None => "null"@,
    };
    let cb = "}"@;
    let pr = spec_print_event_data(e);
    assert(pr == k1 + j1 + k2 + j2 + k3 + mc + cb);
    lemma_add_assoc(k1 + j1 + k2 + j2 + k3, mc, cb);
    lemma_add_assoc(k1 + j1 + k2 + j2, k3, mc + cb);
    lemma_add_assoc(k1 + j1 + k2, j2, k3 + (mc + cb));
    lemma_add_assoc(k1 + j1, k2, j2 + (k3 + (mc + cb)));
    lemma_add_assoc(k1, j1, k2 + (j2 + (k3 + (mc + cb))));
    assert(pr == k1 + (j1 + (k2 + (j2 + (k3 + (mc + cb))))));
    crate::text::lemma_peel(w.skip(i), k1, j1 + (k2 + (j2 + (k3 + (mc + cb)))));
    crate::text::lemma_prefix_window(w, i, k1);
    let x1 = i + k1.len();
    crate::text::lemma_peel(w.skip(x1), j1, k2 + (j2 + (k3 + (mc + cb))));
    crate::text::lemma_prefix_window(w, x1, j1);
    let x2 = x1 + j1.len();
    crate::text::lemma_peel(w.skip(x2), k2, j2 + (k3 + (mc + cb)));
    crate::text::lemma_prefix_window(w, x2, k2);
    let x3 = x2 + k2.len();
    crate::text::lemma_peel(w.skip(x3), j2, k3 + (mc + cb));
    crate::text::lemma_prefix_window(w, x3, j2);
    let x4 = x3 + j2.len();
    crate::text::lemma_peel(w.skip(x4), k3, mc + cb);
    crate::text::lemma_prefix_window(w, x4, k3);
    let x5 = x4 + k3.len();
    crate::text::lemma_peel(w.skip(x5), mc, cb);
    crate::text::lemma_prefix_window(w, x5, mc);
    reveal_strlit("null");
    reveal_strlit("}");
    match e->Error_correlation_id {
        Some(c) => {
            assert(spec_json_string(c@)[0] == '"');
            lemma_not_started(w, x5, "null"@, spec_json_string(c@), 0);
        },
        None => {},
    }
    let x6 = x5 + mc.len();
    crate::text::lemma_prefix_window(w, x6, cb);
}

/// Parses a `message.new` data object.
#[verifier::rlimit(100)]
fn parse_message_new_data(v: &Vec<char>, i: usize) -> (r: Option<(ServerEvent, usize)>)
    requires
        i <= v@.len(),
    ensures
        r matches Some((_, j)) ==> i < j <= v@.len(),
        forall|e: ServerEvent| (#[trigger] event_data_at(v@, i as int, e) && e is MessageNew)
            ==> (r matches Some((out, j)) && event_like(out, e) && j == i
            + spec_print_event_data(e).len()),
{
    proof {
        assert forall|e: ServerEvent| event_data_at(v@, i as int, e) && e is MessageNew implies
            field_at(v@, i as int, "{\"channel_id\":"@, e->MessageNew_channel_id@) by {
            lemma_ed_message_new(v@, i as int, e);
        }
    }
    let r1 = parse_field_string(v, i, "{\"channel_id\":");
    let (channel_id, j) = match r1 {
        Some(p) => p,
        None => {
            return None;
        },
    };
    proof {
        assert forall|e: ServerEvent| event_data_at(v@, i as int, e) && e is MessageNew implies
            channel_id@ == e->MessageNew_channel_id@ && j + ",\"message\":"@.len() <= v@.len()
            && v@.subrange(j as int, j + ",\"message\":"@.len()) == ",\"message\":"@ by {
            lemma_ed_message_new(v@, i as int, e);
        }
    }
    let r2 = expect_lit(v, j, ",\"message\":");
    let j = match r2 {
        Some(p) => p,
        None => {
            return None;
        },
    };
    proof {
        assert forall|e: ServerEvent| event_data_at(v@, i as int, e) && e is MessageNew implies
            bm_at(v@, j as int, e->MessageNew_message) by {
            lemma_ed_message_new(v@, i as int, e);
        }
    }
    let r3 = parse_base_message_at(v, j);
    let (message, j) = match r3 {
        Some(p) => p,
        None => {
            return None;
        },
    };
    proof {
        assert forall|e: ServerEvent| event_data_at(v@, i as int, e) && e is MessageNew implies
            bm_like(message, e->MessageNew_message) && j + "}"@.len() <= v@.len() && v@.subrange(
            j as int,
            j + "}"@.len(),
        ) == "}"@ && j + 1 == i + spec_print_event_data(e).len() by {
            lemma_ed_message_new(v@, i as int, e);
            reveal_strlit("}");
        }
    }
    let r4 = expect_lit(v, j, "}");
    let j = match r4 {
        Some(p) => p,
        None => {
            return None;
        },
    };
    if j <= i {
        proof {
            assert forall|e: ServerEvent| event_data_at(v@, i as int, e)
                && e is MessageNew implies false by {
                lemma_ed_message_new(v@, i as int, e);
            }
        }
        return None;
    }
    Some((ServerEvent::MessageNew { channel_id, message }, j))
}

/// Parses a `presence.update` data object.
#[verifier::rlimit(100)]
fn parse_presence_update_data(v: &Vec<char>, i: usize) -> (r: Option<(ServerEvent, usize)>)
    requires
        i <= v@.len(),
    ensures
        r matches Some((_, j)) ==> i < j <= v@.len(),
        forall|e: ServerEvent| (#[trigger] event_data_at(v@, i as int, e) && e is PresenceUpdate)
            ==> (r matches Some((out, j)) && event_like(out, e) && j == i
            + spec_print_event_data(e).len()),
{
    proof {
        assert forall|e: ServerEvent| event_data_at(v@, i as int, e)
            && e is PresenceUpdate implies field_at(
            v@,
            i as int,
            "{\"user_handle\":"@,
            e->PresenceUpdate_user_handle@,
        ) by {
            lemma_ed_presence(v@, i as int, e);
        }
    }
    let r1 = parse_field_string(v, i, "{\"user_handle\":");
    let (user_handle, j) = match r1 {
        Some(p) => p,
        None => {
            return None;
        },
    };
    proof {
        assert forall|e: ServerEvent| event_data_at(v@, i as int, e)
            && e is PresenceUpdate implies user_handle@ == e->PresenceUpdate_user_handle@
            && field_at(v@, j as int, ",\"user_domain\":"@, e->PresenceUpdate_user_domain@) by {
            lemma_ed_presence(v@, i as int, e);
        }
    }
    let r2 = parse_field_string(v, j, ",\"user_domain\":");
    let (user_domain, j) = match r2 {
        Some(p) => p,
        None => {
            return None;
        },
    };
    proof {
        assert forall|e: ServerEvent| event_data_at(v@, i as int, e)
            && e is PresenceUpdate implies user_domain@ == e->PresenceUpdate_user_domain@ && j
            + ",\"presence\":"@.len() <= v@.len() && v@.subrange(
            j as int,
            j + ",\"presence\":"@.len(),
        ) == ",\"presence\":"@ by {
            lemma_ed_presence(v@, i as int, e);
        }
    }
    let r3 = expect_lit(v, j, ",\"presence\":");
    let j = match r3 {
        Some(p) => p,
        None => {
            return None;
        },
    };
    proof {
        assert forall|e: ServerEvent| event_data_at(v@, i as int, e)
            && e is PresenceUpdate implies presence_at(v@, j as int, e->PresenceUpdate_presence)
            by {
            lemma_ed_presence(v@, i as int, e);
        }
    }
    let r4 = parse_presence_at(v, j);
    let (presence, j) = match r4 {
        Some(p) => p,
        None => {
            return None;
        },
    };
    proof {
        assert forall|e: ServerEvent| event_data_at(v@, i as int, e)
            && e is PresenceUpdate implies presence_like(presence, e->PresenceUpdate_presence)
            && j + "}"@.len() <= v@.len() && v@.subrange(j as int, j + "}"@.len()) == "}"@ && j + 1
            == i + spec_print_event_data(e).len() by {
            lemma_ed_presence(v@, i as int, e);
            reveal_strlit("}");
        }
    }
    let r5 = expect_lit(v, j, "}");
    let j = match r5 {
        Some(p) => p,
        None => {
            return None;
        },
    };
    if j <= i {
        proof {
            assert forall|e: ServerEvent| event_data_at(v@, i as int, e)
                && e is PresenceUpdate implies false by {
                lemma_ed_presence(v@, i as int, e);
            }
        }
        return None;
    }
    Some((ServerEvent::PresenceUpdate { user_handle, user_domain, presence }, j))
}

/// Parses an `ack` data object.
#[verifier::rlimit(100)]
fn parse_ack_data(v: &Vec<char>, i: usize) -> (r: Option<(ServerEvent, usize)>)
    requires
        i <= v@.len(),
    ensures
        r matches Some((_, j)) ==> i < j <= v@.len(),
        forall|e: ServerEvent| (#[trigger] event_data_at(v@, i as int, e) && e is Ack) ==> (r
            matches Some((out, j)) && event_like(out, e) && j == i + spec_print_event_data(
            e,
        ).len()),
{
    proof {
        assert forall|e: ServerEvent| event_data_at(v@, i as int, e) && e is Ack implies field_at(
            v@,
            i as int,
            "{\"nonce\":"@,
            e->Ack_nonce@,
        ) by {
            lemma_ed_ack(v@, i as int, e);
        }
    }
    let r1 = parse_field_string(v, i, "{\"nonce\":");
    let (nonce, j) = match r1 {
        Some(p) => p,
        None => {
            return None;
        },
    };
    proof {
        assert forall|e: ServerEvent| event_data_at(v@, i as int, e) && e is Ack implies nonce@
            == e->Ack_nonce@ && field_at(v@, j as int, ",\"message_id\":"@, e->Ack_message_id@)
            by {
            lemma_ed_ack(v@, i as int, e);
        }
    }
    let r2 = parse_field_string(v, j, ",\"message_id\":");
    let (message_id, j) = match r2 {
        Some(p) => p,
        None => {
            return None;
        },
    };
    proof {
        assert forall|e: ServerEvent| event_data_at(v@, i as int, e) && e is Ack implies
            message_id@ == e->Ack_message_id@ && j + "}"@.len() <= v@.len() && v@.subrange(
            j as int,
            j + "}"@.len(),
        ) == "}"@ && j + 1 == i + spec_print_event_data(e).len() by {
            lemma_ed_ack(v@, i as int, e);
            reveal_strlit("}");
        }
    }
    let r3 = expect_lit(v, j, "}");
    let j = match r3 {
        Some(p) => p,
        None => {
            return None;
        },
    };
    if j <= i {
        proof {
            assert forall|e: ServerEvent| event_data_at(v@, i as int, e) && e is Ack implies false
                by {
                lemma_ed_ack(v@, i as int, e);
            }
        }
        return None;
    }
    Some((ServerEvent::Ack { nonce, message_id }, j))
}

/// Parses an `error` data object.
#[verifier::rlimit(100)]
fn parse_error_data(v: &Vec<char>, i: usize) -> (r: Option<(ServerEvent, usize)>)
    requires
        i <= v@.len(),
    ensures
        r matches Some((_, j)) ==> i < j <= v@.len(),
        forall|e: ServerEvent| (#[trigger] event_data_at(v@, i as int, e) && e is Error) ==> (r
            matches Some((out, j)) && event_like(out, e) && j == i + spec_print_event_data(
            e,
        ).len()),
{
    proof {
        assert forall|e: ServerEvent| event_data_at(v@, i as int, e) && e is Error implies
            field_at(v@, i as int, "{\"code\":"@, e->Error_code@) by {
            lemma_ed_error(v@, i as int, e);
        }
    }
    let r1 = parse_field_string(v, i, "{\"code\":");
    let (code, j) = match r1 {
        Some(p) => p,
        None => {
            return None;
        },
    };
    proof {
        assert forall|e: ServerEvent| event_data_at(v@, i as int, e) && e is Error implies code@
            == e->Error_code@ && field_at(v@, j as int, ",\"message\":"@, e->Error_message@) by {
            lemma_ed_error(v@, i as int, e);
        }
    }
    let r2 = parse_field_string(v, j, ",\"message\":");
    let (message, j) = match r2 {
        Some(p) => p,
        None => {
            return None;
        },
    };
    proof {
        assert forall|e: ServerEvent| event_data_at(v@, i as int, e) && e is Error implies
            message@ == e->Error_message@ && j + ",\"correlation_id\":"@.len() <= v@.len()
            && v@.subrange(j as int, j + ",\"correlation_id\":"@.len())
            == ",\"correlation_id\":"@ by {
            lemma_ed_error(v@, i as int, e);
        }
    }
    let r3 = expect_lit(v, j, ",\"correlation_id\":");
    let j = match r3 {
        Some(p) => p,
        None => {
            return None;
        },
    };
    proof {
        assert forall|e: ServerEvent| event_data_at(v@, i as int, e) && e is Error implies (match
            e->Error_correlation_id {
            Some(c) => crate::wire::spec_parse_string(v@, j as int) == Some::<(Seq<char>, int)>(
                (c@, j + spec_json_string(c@).len()),
            ) && lit_absent(v@, j as int, "null"@),
            None => j + "null"@.len() <= v@.len() && v@.subrange(j as int, j + "null"@.len())
                == "null"@,
        }) by {
            lemma_ed_error(v@, i as int, e);
            match e->Error_correlation_id {
                Some(c) => {
                    crate::text::lemma_prefix_window(v@, j as int, spec_json_string(c@));
                    crate::wire::lemma_parse_string_inverts(v@, j as int, c@);
                },
                None => {},
            }
        }
    }
    let r4 = expect_lit(v, j, "null");
    let (correlation_id, j) = match r4 {
        Some(j2) => {
            let pair = (None::<String>, j2);
            proof {
                assert forall|e: ServerEvent| event_data_at(v@, i as int, e)
                    && e is Error implies e->Error_correlation_id is None && pair.1 == j
                    + "null"@.len() by {
                    lemma_ed_error(v@, i as int, e);
                }
            }
            pair
        },
        None => {
            let r5 = parse_json_string(v, j);
            let (c, j2) = match r5 {
                Some(p) => p,
                None => {
                    return None;
                },
            };
            let pair = (Some(chars_to_string(&c)), j2);
            proof {
                assert forall|e: ServerEvent| event_data_at(v@, i as int, e)
                    && e is Error implies (match (pair.0, e->Error_correlation_id) {
                    (Some(a), Some(b)) => a@ == b@,
                    (None, None) => true,
                    _ => false,
                }) && pair.1 == j + (match e->Error_correlation_id {
                    Some(cc) => spec_json_string(cc@).len() as int,
                    None => "null"@.len() as int,
                }) by {
                    lemma_ed_error(v@, i as int, e);
                }
            }
            pair
        },
    };
    proof {
        assert forall|e: ServerEvent| event_data_at(v@, i as int, e) && e is Error implies j
            + "}"@.len() <= v@.len() && v@.subrange(j as int, j + "}"@.len()) == "}"@ && j + 1 == i
            + spec_print_event_data(e).len() by {
            lemma_ed_error(v@, i as int, e);
            reveal_strlit("}");
        }
    }
    let r6 = expect_lit(v, j, "}");
    let j = match r6 {
        Some(p) => p,
        None => {
            return None;
        },
    };
    if j <= i {
        proof {
            assert forall|e: ServerEvent| event_data_at(v@, i as int, e) && e is Error implies
                false by {
                lemma_ed_error(v@, i as int, e);
            }
        }
        return None;
    }
    Some((ServerEvent::Error { code, message, correlation_id }, j))
}

/// The four event tags are pairwise distinct, so the tag fixes the
/// variant.
proof fn lemma_event_tag(e: ServerEvent)
    ensures
        spec_event_tag(e) == "message.new"@ ==> e is MessageNew,
        spec_event_tag(e) == "presence.update"@ ==> e is PresenceUpdate,
        spec_event_tag(e) == "ack"@ ==> e is Ack,
        spec_event_tag(e) == "error"@ ==> e is Error,
{
    reveal_strlit("message.new");
    reveal_strlit("presence.update");
    reveal_strlit("ack");
    reveal_strlit("error");
    assert("message.new"@.len() == 11 && "presence.update"@.len() == 15 && "ack"@.len() == 3
        && "error"@.len() == 5);
}

#[verifier::rlimit(100)]
fn parse_event_data_at(v: &Vec<char>, i: usize, tag: &Vec<char>) -> (r: Option<(
    ServerEvent,
    usize,
)>)
    requires
        i <= v@.len(),
    ensures
        r matches Some((_, j)) ==> i < j <= v@.len(),
        forall|e: ServerEvent| (#[trigger] event_data_at(v@, i as int, e) && tag@
            == spec_event_tag(e)) ==> (r matches Some((out, j)) && event_like(out, e) && j == i
            + spec_print_event_data(e).len()),
{
    let message_new = str_to_chars("message.new");
    let presence_update = str_to_chars("presence.update");
    let ack = str_to_chars("ack");
    let error = str_to_chars("error");
    if chars_eq(tag, &message_new) {
        proof {
            assert forall|e: ServerEvent| event_data_at(v@, i as int, e) && tag@
                == spec_event_tag(e) implies e is MessageNew by {
                lemma_event_tag(e);
            }
        }
        let r = parse_message_new_data(v, i);
        proof {
            assert forall|e: ServerEvent| event_data_at(v@, i as int, e) && tag@
                == spec_event_tag(e) implies (r matches Some((out, j)) && event_like(out, e) && j
                == i + spec_print_event_data(e).len()) by {
                lemma_event_tag(e);
            }
        }
        r
    } else if chars_eq(tag, &presence_update) {
        proof {
            assert forall|e: ServerEvent| event_data_at(v@, i as int, e) && tag@
                == spec_event_tag(e) implies e is PresenceUpdate by {
                lemma_event_tag(e);
            }
        }
        let r = parse_presence_update_data(v, i);
        proof {
            assert forall|e: ServerEvent| event_data_at(v@, i as int, e) && tag@
                == spec_event_tag(e) implies (r matches Some((out, j)) && event_like(out, e) && j
                == i + spec_print_event_data(e).len()) by {
                lemma_event_tag(e);
            }
        }
        r
    } else if chars_eq(tag, &ack) {
        proof {
            assert forall|e: ServerEvent| event_data_at(v@, i as int, e) && tag@
                == spec_event_tag(e) implies e is Ack by {
                lemma_event_tag(e);
            }
        }
        let r = parse_ack_data(v, i);
        proof {
            assert forall|e: ServerEvent| event_data_at(v@, i as int, e) && tag@
                == spec_event_tag(e) implies (r matches Some((out, j)) && event_like(out, e) && j
                == i + spec_print_event_data(e).len()) by {
                lemma_event_tag(e);
            }
        }
        r
    } else if chars_eq(tag, &error) {
        proof {
            assert forall|e: ServerEvent| event_data_at(v@, i as int, e) && tag@
                == spec_event_tag(e) implies e is Error by {
                lemma_event_tag(e);
            }
        }
        let r = parse_error_data(v, i);
        proof {
            assert forall|e: ServerEvent| event_data_at(v@, i as int, e) && tag@
                == spec_event_tag(e) implies (r matches Some((out, j)) && event_like(out, e) && j
                == i + spec_print_event_data(e).len()) by {
                lemma_event_tag(e);
            }
        }
        r
    } else {
        proof {
            assert forall|e: ServerEvent| event_data_at(v@, i as int, e) && tag@
                == spec_event_tag(e) implies false by {
                reveal_strlit("message.new");
                reveal_strlit("presence.update");
                reveal_strlit("ack");
                reveal_strlit("error");
            }
        }
        None
    }
}

/// Field-by-field view equality of inbound envelopes.
pub open spec fn ev_env_like(a: WsEnvelope<ServerEvent>, b: WsEnvelope<ServerEvent>) -> bool {
    &&& a.id@ == b.id@
    &&& event_like(a.payload, b.payload)
    &&& a.ts@ == b.ts@
    &&& match (a.correlation_id, b.correlation_id) {
        (Some(x), Some(y)) => x@ == y@,
        (None, None) => true,
        _ => false,
    }
}

/// The position of the type tag token in a printed inbound frame.
pub open spec fn ev_p1(env: WsEnvelope<ServerEvent>) -> int {
    "{\"id\":"@.len() + spec_json_string(env.id@).len() + ",\"type\":"@.len() as int
}

/// The position of the data object.
pub open spec fn ev_p2(env: WsEnvelope<ServerEvent>) -> int {
    ev_p1(env) + spec_json_string(spec_event_tag(env.payload)).len() + ",\"data\":"@.len()
}

/// The position after the data object.
pub open spec fn ev_p3(env: WsEnvelope<ServerEvent>) -> int {
    ev_p2(env) + spec_print_event_data(env.payload).len()
}

/// The position after the timestamp field.
pub open spec fn ev_p4(env: WsEnvelope<ServerEvent>) -> int {
    ev_p3(env) + ",\"ts\":"@.len() + spec_json_string(env.ts@).len()
}

/// The position of the closing brace of a printed inbound frame.
pub open spec fn ev_p5(env: WsEnvelope<ServerEvent>) -> int {
    ev_p4(env) + (match env.correlation_id {
        Some(c) => ",\"correlationId\":"@.len() + spec_json_string(c@).len(),
        None => 0,
    })
}

/// Where each piece of a printed inbound frame lies.
#[verifier::rlimit(100)]
proof fn lemma_ev_env_anatomy(w: Seq<char>, env: WsEnvelope<ServerEvent>)
    requires
        w == spec_print_event_envelope(env),
    ensures
        field_at(w, 0, "{\"id\":"@, env.id@),
        ev_p1(env) <= w.len() && w.subrange(
            ev_p1(env) - ",\"type\":"@.len(),
            ev_p1(env),
        ) == ",\"type\":"@,
        seq_starts_with(w.skip(ev_p1(env)), spec_json_string(spec_event_tag(env.payload))),
        ev_p2(env) <= w.len() && w.subrange(
            ev_p2(env) - ",\"data\":"@.len(),
            ev_p2(env),
        ) == ",\"data\":"@,
        event_data_at(w, ev_p2(env), env.payload),
        field_at(w, ev_p3(env), ",\"ts\":"@, env.ts@),
        match env.correlation_id {
            Some(c) => field_at(w, ev_p4(env), ",\"correlationId\":"@, c@),
            None => lit_absent(w, ev_p4(env), ",\"correlationId\":"@),
        },
        ev_p5(env) + 1 == w.len() && w.subrange(ev_p5(env), ev_p5(env) + 1) == "}"@,
{
    let k1 = "{\"id\":"@;
    let j1 = spec_json_string(env.id@);
    let k2 = ",\"type\":"@;
    let j2 = spec_json_string(spec_event_tag(env.payload));
    let k3 = ",\"data\":"@;
    let dt = spec_print_event_data(env.payload);
    let k4 = ",\"ts\":"@;
    let j4 = spec_json_string(env.ts@);
    let m1 = match env.correlation_id {
        Some(c) => ",\"correlationId\":"@ + spec_json_string(c@),
        None => Seq::<char>::empty(),
    };
    let cb = "}"@;
    assert(w == k1 + j1 + k2 + j2 + k3 + dt + k4 + j4 + m1 + cb);
    lemma_add_assoc(k1 + j1 + k2 + j2 + k3 + dt + k4 + j4, m1, cb);
    lemma_add_assoc(k1 + j1 + k2 + j2 + k3 + dt + k4, j4, m1 + cb);
    lemma_add_assoc(k1 + j1 + k2 + j2 + k3 + dt, k4, j4 + (m1 + cb));
    lemma_add_assoc(k1 + j1 + k2 + j2 + k3, dt, k4 + (j4 + (m1 + cb)));
    lemma_add_assoc(k1 + j1 + k2 + j2, k3, dt + (k4 + (j4 + (m1 + cb))));
    lemma_add_assoc(k1 + j1 + k2, j2, k3 + (dt + (k4 + (j4 + (m1 + cb)))));
    lemma_add_assoc(k1 + j1, k2, j2 + (k3 + (dt + (k4 + (j4 + (m1 + cb))))));
    lemma_add_assoc(k1, j1, k2 + (j2 + (k3 + (dt + (k4 + (j4 + (m1 + cb)))))));
    assert(w == k1 + (j1 + (k2 + (j2 + (k3 + (dt + (k4 + (j4 + (m1 + cb)))))))));
    assert(seq_starts_with(w.skip(0), w)) by {
        assert(w.skip(0) =~= w);
        assert(w.subrange(0, w.len() as int) =~= w);
    }
    crate::text::lemma_peel(w.skip(0), k1, j1 + (k2 + (j2 + (k3 + (dt + (k4 + (j4 + (m1 + cb))))))));
    crate::text::lemma_prefix_window(w, 0, k1);
    let x1 = k1.len() as int;
    crate::text::lemma_peel(w.skip(x1), j1, k2 + (j2 + (k3 + (dt + (k4 + (j4 + (m1 + cb)))))));
    crate::text::lemma_prefix_window(w, x1, j1);
    let x2 = x1 + j1.len();
    crate::text::lemma_peel(w.skip(x2), k2, j2 + (k3 + (dt + (k4 + (j4 + (m1 + cb))))));
    crate::text::lemma_prefix_window(w, x2, k2);
    let x3 = x2 + k2.len();
    crate::text::lemma_peel(w.skip(x3), j2, k3 + (dt + (k4 + (j4 + (m1 + cb)))));
    crate::text::lemma_prefix_window(w, x3, j2);
    let x4 = x3 + j2.len();
    crate::text::lemma_peel(w.skip(x4), k3, dt + (k4 + (j4 + (m1 + cb))));
    crate::text::lemma_prefix_window(w, x4, k3);
    let x5 = x4 + k3.len();
    crate::text::lemma_peel(w.skip(x5), dt, k4 + (j4 + (m1 + cb)));
    crate::text::lemma_prefix_window(w, x5, dt);
    let x6 = x5 + dt.len();
    crate::text::lemma_peel(w.skip(x6), k4, j4 + (m1 + cb));
    crate::text::lemma_prefix_window(w, x6, k4);
    let x7 = x6 + k4.len();
    crate::text::lemma_peel(w.skip(x7), j4, m1 + cb);
    crate::text::lemma_prefix_window(w, x7, j4);
    let x8 = x7 + j4.len();
    reveal_strlit(",\"correlationId\":");
    reveal_strlit("}");
    match env.correlation_id {
        Some(c) => {
            lemma_add_assoc(",\"correlationId\":"@, spec_json_string(c@), cb);
            crate::text::lemma_peel(w.skip(x8), ",\"correlationId\":"@, spec_json_string(c@)
                + cb);
            crate::text::lemma_prefix_window(w, x8, ",\"correlationId\":"@);
            crate::text::lemma_peel(w.skip(x8 + ",\"correlationId\":"@.len()), spec_json_string(
                c@), cb);
            crate::text::lemma_prefix_window(w, x8 + ",\"correlationId\":"@.len(),
                spec_json_string(c@));
        },
        None => {
            lemma_add_empty(cb);
            lemma_not_started(w, x8, ",\"correlationId\":"@, cb, 0);
            assert(",\"correlationId\":"@[0] == ',' && cb[0] == '}');
        },
    }
    let x9 = ev_p5(env);
    assert(seq_starts_with(w.skip(x9), cb));
    crate::text::lemma_prefix_window(w, x9, cb);
}

#[verifier::rlimit(100)]
fn parse_event_envelope_chars(v: &Vec<char>) -> (r: Option<WsEnvelope<ServerEvent>>)
    ensures
        forall|env: WsEnvelope<ServerEvent>|
            #![trigger spec_print_event_envelope(env)]
            v@ == spec_print_event_envelope(env) ==> (r matches Some(out) && ev_env_like(
                out,
                env,
            )),
{
    proof {
        assert forall|env: WsEnvelope<ServerEvent>| v@ == spec_print_event_envelope(
            env,
        ) implies field_at(v@, 0, "{\"id\":"@, env.id@) by {
            lemma_ev_env_anatomy(v@, env);
        }
    }
    let r1 = parse_field_string(v, 0, "{\"id\":");
    let (id, j) = match r1 {
        Some(p) => p,
        None => {
            return None;
        },
    };
    proof {
        assert forall|env: WsEnvelope<ServerEvent>| v@ == spec_print_event_envelope(
            env,
        ) implies id@ == env.id@ && j + ",\"type\":"@.len() <= v@.len() && v@.subrange(
            j as int,
            j + ",\"type\":"@.len(),
        ) == ",\"type\":"@ && j + ",\"type\":"@.len() == ev_p1(env) by {
            lemma_ev_env_anatomy(v@, env);
        }
    }
    let r2 = expect_lit(v, j, ",\"type\":");
    let j = match r2 {
        Some(p) => p,
        None => {
            return None;
        },
    };
    proof {
        assert forall|env: WsEnvelope<ServerEvent>| v@ == spec_print_event_envelope(
            env,
        ) implies crate::wire::spec_parse_string(v@, j as int) == Some::<(Seq<char>, int)>(
            (
                spec_event_tag(env.payload),
                ev_p1(env) + spec_json_string(spec_event_tag(env.payload)).len(),
            ),
        ) by {
            lemma_ev_env_anatomy(v@, env);
            crate::text::lemma_prefix_window(v@, ev_p1(env), spec_json_string(
                spec_event_tag(env.payload)));
            crate::wire::lemma_parse_string_inverts(v@, j as int, spec_event_tag(env.payload));
        }
    }
    let r3 = parse_json_string(v, j);
    let (tag, j) = match r3 {
        Some(p) => p,
        None => {
            return None;
        },
    };
    proof {
        assert forall|env: WsEnvelope<ServerEvent>| v@ == spec_print_event_envelope(
            env,
        ) implies tag@ == spec_event_tag(env.payload) && j + ",\"data\":"@.len() <= v@.len()
            && v@.subrange(j as int, j + ",\"data\":"@.len()) == ",\"data\":"@ && j
            + ",\"data\":"@.len() == ev_p2(env) by {
            lemma_ev_env_anatomy(v@, env);
        }
    }
    let r4 = expect_lit(v, j, ",\"data\":");
    let j = match r4 {
        Some(p) => p,
        None => {
            return None;
        },
    };
    proof {
        assert forall|env: WsEnvelope<ServerEvent>| v@ == spec_print_event_envelope(
            env,
        ) implies event_data_at(v@, j as int, env.payload) && tag@ == spec_event_tag(
            env.payload,
        ) by {
            lemma_ev_env_anatomy(v@, env);
        }
    }
    let r5 = parse_event_data_at(v, j, &tag);
    let (payload, j) = match r5 {
        Some(p) => p,
        None => {
            return None;
        },
    };
    proof {
        assert forall|env: WsEnvelope<ServerEvent>| v@ == spec_print_event_envelope(
            env,
        ) implies event_like(payload, env.payload) && j == ev_p3(env) && field_at(
            v@,
            ev_p3(env),
            ",\"ts\":"@,
            env.ts@,
        ) by {
            lemma_ev_env_anatomy(v@, env);
        }
    }
    let r6 = parse_field_string(v, j, ",\"ts\":");
    let (ts, j) = match r6 {
        Some(p) => p,
        None => {
            return None;
        },
    };
    proof {
        assert forall|env: WsEnvelope<ServerEvent>| v@ == spec_print_event_envelope(
            env,
        ) implies ts@ == env.ts@ && j == ev_p4(env) && (match env.correlation_id {
            Some(c) => field_at(v@, ev_p4(env), ",\"correlationId\":"@, c@),
            None => lit_absent(v@, ev_p4(env), ",\"correlationId\":"@),
        }) by {
            lemma_ev_env_anatomy(v@, env);
        }
    }
    let r7 = parse_field_string(v, j, ",\"correlationId\":");
    let (correlation_id, j) = match r7 {
        Some((c, j2)) => (Some(c), j2),
        None => (None, j),
    };
    proof {
        assert forall|env: WsEnvelope<ServerEvent>| v@ == spec_print_event_envelope(
            env,
        ) implies (match (correlation_id, env.correlation_id) {
            (Some(a), Some(b)) => a@ == b@,
            (None, None) => true,
            _ => false,
        }) && j == ev_p5(env) && j + "}"@.len() <= v@.len() && v@.subrange(
            j as int,
            j + "}"@.len(),
        ) == "}"@ && ev_p5(env) + 1 == v@.len() by {
            lemma_ev_env_anatomy(v@, env);
            reveal_strlit("}");
        }
    }
    let r8 = expect_lit(v, j, "}");
    let j = match r8 {
        Some(p) => p,
        None => {
            return None;
        },
    };
    if j == v.len() {
        Some(WsEnvelope { id, payload, ts, correlation_id })
    } else {
        proof {
            assert forall|env: WsEnvelope<ServerEvent>| v@ == spec_print_event_envelope(
                env,
            ) implies false by {
                lemma_ev_env_anatomy(v@, env);
            }
        }
        None
    }
}

/// View-equal attachment lists print identically.
proof fn lemma_items_congruence(x: Seq<Attachment>, y: Seq<Attachment>)
    requires
        attachments_like(x, y),
    ensures
        spec_print_attachment_items(x) == spec_print_attachment_items(y),
        spec_print_attachments(x) == spec_print_attachments(y),
    decreases x.len(),
{
    if x.len() > 0 {
        assert(crate::ledger::attachment_like(x[x.len() - 1], y[x.len() - 1]));
        assert(spec_print_attachment(x.last()) == spec_print_attachment(y.last()));
        if x.len() > 1 {
            assert(attachments_like(x.drop_last(), y.drop_last())) by {
                assert forall|m: int| 0 <= m < x.drop_last().len() implies
                    crate::ledger::attachment_like(
                    #[trigger] x.drop_last()[m],
                    y.drop_last()[m],
                ) by {
                    assert(x.drop_last()[m] == x[m] && y.drop_last()[m] == y[m]);
                    assert(crate::ledger::attachment_like(x[m], y[m]));
                }
            }
            lemma_items_congruence(x.drop_last(), y.drop_last());
        } else {
            assert(x[0] == x.last() && y[0] == y.last());
        }
    }
}

/// View-equal commands print identically and carry the same tag.
proof fn lemma_command_congruence(a: ClientCommand, b: ClientCommand)
    requires
        command_like(a, b),
    ensures
        spec_print_command_data(a) == spec_print_command_data(b),
        spec_command_tag(a) == spec_command_tag(b),
{
    match (a, b) {
        (
            ClientCommand::MessageCreate { attachments: x7, .. },
            ClientCommand::MessageCreate { attachments: y7, .. },
        ) => {
            lemma_items_congruence(x7@, y7@);
        },
        _ => {},
    }
}

/// View-equal envelopes print identically.
proof fn lemma_env_congruence(a: WsEnvelope<ClientCommand>, b: WsEnvelope<ClientCommand>)
    requires
        cmd_env_like(a, b),
    ensures
        spec_print_command_envelope(a) == spec_print_command_envelope(b),
{
    lemma_command_congruence(a.payload, b.payload);
}

/// View-equal presence values print identically.
proof fn lemma_presence_congruence(a: Presence, b: Presence)
    requires
        presence_like(a, b),
    ensures
        spec_print_presence(a) == spec_print_presence(b),
{
}

/// View-equal messages print identically.
proof fn lemma_bm_congruence(a: BaseMessage, b: BaseMessage)
    requires
        bm_like(a, b),
    ensures
        spec_print_base_message(a) == spec_print_base_message(b),
{
    lemma_items_congruence(a.attachments@, b.attachments@);
}

/// View-equal events print identically and carry the same tag.
proof fn lemma_event_congruence(a: ServerEvent, b: ServerEvent)
    requires
        event_like(a, b),
    ensures
        spec_print_event_data(a) == spec_print_event_data(b),
        spec_event_tag(a) == spec_event_tag(b),
{
    match (a, b) {
        (
            ServerEvent::MessageNew { message: x2, .. },
            ServerEvent::MessageNew { message: y2, .. },
        ) => {
            lemma_bm_congruence(x2, y2);
        },
        (
            ServerEvent::PresenceUpdate { presence: x3, .. },
            ServerEvent::PresenceUpdate { presence: y3, .. },
        ) => {
            lemma_presence_congruence(x3, y3);
        },
        _ => {},
    }
}

/// View-equal inbound envelopes print identically.
proof fn lemma_ev_env_congruence(a: WsEnvelope<ServerEvent>, b: WsEnvelope<ServerEvent>)
    requires
        ev_env_like(a, b),
    ensures
        spec_print_event_envelope(a) == spec_print_event_envelope(b),
{
    lemma_event_congruence(a.payload, b.payload);
}

/// Parses an outbound-format frame: the inverse of the encoder. A
/// decoded frame re-serializes to exactly the input text, so the decoder
/// can never produce a value the encoder would not have written; and
/// every encoded frame decodes back to a view-equal envelope. Text
/// outside the canonical frame format is rejected.
pub fn decode_command_envelope(text: &str) -> (r: Option<WsEnvelope<ClientCommand>>)
    ensures
        r matches Some(env) ==> text@ == spec_print_command_envelope(env),
        forall|env: WsEnvelope<ClientCommand>|
            #![trigger spec_print_command_envelope(env)]
            text@ == spec_print_command_envelope(env) ==> (r matches Some(out) && cmd_env_like(
                out,
                env,
            )),
{
    let v = str_to_chars(text);
    let parsed = parse_command_envelope_chars(&v);
    match parsed {
        Some(env) => {
            let re = encode_command_envelope(&env);
            let rv = str_to_chars(re.as_str());
            if chars_eq(&rv, &v) {
                Some(env)
            } else {
                proof {
                    assert forall|e: WsEnvelope<ClientCommand>| v@
                        == spec_print_command_envelope(e) implies false by {
                        lemma_env_congruence(env, e);
                    }
                }
                None
            }
        },
        None => None,
    }
}

/// Parses an inbound frame from the socket: the inverse of the event
/// encoder. A decoded frame re-serializes to exactly the input text, and
/// every encoded frame decodes back to a view-equal envelope. A frame
/// outside the canonical format is dropped by the read loop, and the
/// connection stays open.
pub fn decode_event_envelope(text: &str) -> (r: Option<WsEnvelope<ServerEvent>>)
    ensures
        r matches Some(env) ==> text@ == spec_print_event_envelope(env),
        forall|env: WsEnvelope<ServerEvent>|
            #![trigger spec_print_event_envelope(env)]
            text@ == spec_print_event_envelope(env) ==> (r matches Some(out) && ev_env_like(
                out,
                env,
            )),
{
    let v = str_to_chars(text);
    let parsed = parse_event_envelope_chars(&v);
    match parsed {
        Some(env) => {
            let re = encode_event_envelope(&env);
            let rv = str_to_chars(re.as_str());
            if chars_eq(&rv, &v) {
                Some(env)
            } else {
                proof {
                    assert forall|e: WsEnvelope<ServerEvent>| v@ == spec_print_event_envelope(
                        e,
                    ) implies false by {
                        lemma_ev_env_congruence(env, e);
                    }
                }
                None
            }
        },
        None => None,
    }
}

} // verus!
