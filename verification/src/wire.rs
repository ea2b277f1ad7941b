//! The wire codec: one datagram holds one message as a JSON object whose
//! member `type` names the message and whose other members are its fields.

use vstd::prelude::*;
use crate::json::{
    as_number, as_text, empty_object, json_of, json_parse, json_text, member, number_value,
    parse, print, put_member, text_value, Json,
};
use crate::message::{Message, MessageView};
use crate::text::same_text;

verus! {

/// The text under `key` in an object; `None` where `doc` is no object, has no
/// such member, or the member is no string.
pub open spec fn doc_text(doc: Json, key: Seq<char>) -> Option<Seq<char>> {
    match doc {
        Json::Object(m) if m.contains_key(key) => match m[key] {
            Json::Text(s) => Some(s),
            _ => None,
        },
        _ => None,
    }
}

/// The non-negative integer under `key` in an object, as far as it fits 64
/// bits.
pub open spec fn doc_number(doc: Json, key: Seq<char>) -> Option<u64> {
    match doc {
        Json::Object(m) if m.contains_key(key) => match m[key] {
            Json::Int(i) if 0 <= i <= u64::MAX => Some(i as u64),
            _ => None,
        },
        _ => None,
    }
}

/// A node id under `key`: an integer from 0 to 255.
pub open spec fn doc_node(doc: Json, key: Seq<char>) -> Option<u8> {
    match doc_number(doc, key) {
        Some(n) if n <= u8::MAX => Some(n as u8),
        _ => None,
    }
}

/// A sequence number under `key`: an integer from 0 to `u32::MAX`.
pub open spec fn doc_sequence(doc: Json, key: Seq<char>) -> Option<u32> {
    match doc_number(doc, key) {
        Some(n) if n <= u32::MAX => Some(n as u32),
        _ => None,
    }
}

/// The message that a document stands for. The member `type` selects the
/// kind; every field of that kind must be present with the right type and
/// within range; members that the kind does not have are ignored.
pub open spec fn message_of(doc: Json) -> Option<MessageView> {
    match doc_text(doc, "type"@) {
        None => None,
        Some(tag) => {
            if tag == "ConnectionRequest"@ {
                match (doc_node(doc, "from_node"@), doc_text(doc, "nickname"@)) {
                    (Some(from_node), Some(nickname)) => Some(
                        MessageView::ConnectionRequest { from_node, nickname },
                    ),
                    _ => None,
                }
            } else if tag == "ConnectionAck"@ {
                match (doc_node(doc, "from_node"@), doc_text(doc, "nickname"@)) {
                    (Some(from_node), Some(nickname)) => Some(
                        MessageView::ConnectionAck { from_node, nickname },
                    ),
                    _ => None,
                }
            } else if tag == "ConnectionFail"@ {
                match (doc_node(doc, "from_node"@), doc_text(doc, "reason"@)) {
                    (Some(from_node), Some(reason)) => Some(
                        MessageView::ConnectionFail { from_node, reason },
                    ),
                    _ => None,
                }
            } else if tag == "ConnectionClosed"@ {
                match (
                    doc_node(doc, "source_node"@),
                    doc_sequence(doc, "sequence_number"@),
                    doc_node(doc, "from_node"@),
                    doc_text(doc, "nickname"@),
                ) {
                    (Some(source_node), Some(sequence_number), Some(from_node), Some(nickname)) => {
                        Some(
                            MessageView::ConnectionClosed {
                                source_node,
                                sequence_number,
                                from_node,
                                nickname,
                            },
                        )
                    },
                    _ => None,
                }
            } else if tag == "ChatMessage"@ {
                match (
                    doc_node(doc, "source_node"@),
                    doc_sequence(doc, "sequence_number"@),
                    doc_node(doc, "from_node"@),
                    doc_text(doc, "nickname"@),
                    doc_text(doc, "content"@),
                ) {
                    (
                        Some(source_node),
                        Some(sequence_number),
                        Some(from_node),
                        Some(nickname),
                        Some(content),
                    ) => Some(
                        MessageView::ChatMessage {
                            source_node,
                            sequence_number,
                            from_node,
                            nickname,
                            content,
                        },
                    ),
                    _ => None,
                }
            } else {
                None
            }
        },
    }
}

/// The message that a datagram holds: what [`message_of`] makes of the
/// document that the bytes parse to, and `None` where they do not parse.
pub open spec fn decoded(bytes: Seq<u8>) -> Option<MessageView> {
    match json_parse(bytes) {
        Some(doc) => message_of(doc),
        None => None,
    }
}

/// The document that is written for a message.
pub open spec fn message_json(m: MessageView) -> Json {
    match m {
        MessageView::ConnectionRequest { from_node, nickname } => Json::Object(
            Map::empty().insert("type"@, Json::Text("ConnectionRequest"@)).insert(
                "from_node"@,
                Json::Int(from_node as int),
            ).insert("nickname"@, Json::Text(nickname)),
        ),
        MessageView::ConnectionAck { from_node, nickname } => Json::Object(
            Map::empty().insert("type"@, Json::Text("ConnectionAck"@)).insert(
                "from_node"@,
                Json::Int(from_node as int),
            ).insert("nickname"@, Json::Text(nickname)),
        ),
        MessageView::ConnectionFail { from_node, reason } => Json::Object(
            Map::empty().insert("type"@, Json::Text("ConnectionFail"@)).insert(
                "from_node"@,
                Json::Int(from_node as int),
            ).insert("reason"@, Json::Text(reason)),
        ),
        MessageView::ConnectionClosed { source_node, sequence_number, from_node, nickname } => {
            Json::Object(
                Map::empty().insert("type"@, Json::Text("ConnectionClosed"@)).insert(
                    "source_node"@,
                    Json::Int(source_node as int),
                ).insert("sequence_number"@, Json::Int(sequence_number as int)).insert(
                    "from_node"@,
                    Json::Int(from_node as int),
                ).insert("nickname"@, Json::Text(nickname)),
            )
        },
        MessageView::ChatMessage { source_node, sequence_number, from_node, nickname, content } => {
            Json::Object(
                Map::empty().insert("type"@, Json::Text("ChatMessage"@)).insert(
                    "source_node"@,
                    Json::Int(source_node as int),
                ).insert("sequence_number"@, Json::Int(sequence_number as int)).insert(
                    "from_node"@,
                    Json::Int(from_node as int),
                ).insert("nickname"@, Json::Text(nickname)).insert("content"@, Json::Text(content)),
            )
        },
    }
}

/// The bytes of the datagram for a message, or `None` where the document
/// cannot be written.
pub open spec fn encoded(m: MessageView) -> Option<Seq<u8>> {
    json_text(message_json(m))
}

/// The names of the members and of the kinds are pairwise different.
proof fn lemma_names_differ()
    ensures
        "type"@.len() == 4,
        "from_node"@.len() == 9,
        "nickname"@.len() == 8,
        "reason"@.len() == 6,
        "source_node"@.len() == 11,
        "sequence_number"@.len() == 15,
        "content"@.len() == 7,
        "ConnectionRequest"@.len() == 17,
        "ConnectionAck"@.len() == 13,
        "ConnectionFail"@.len() == 14,
        "ConnectionClosed"@.len() == 16,
        "ChatMessage"@.len() == 11,
{
    reveal_strlit("type");
    reveal_strlit("from_node");
    reveal_strlit("nickname");
    reveal_strlit("reason");
    reveal_strlit("source_node");
    reveal_strlit("sequence_number");
    reveal_strlit("content");
    reveal_strlit("ConnectionRequest");
    reveal_strlit("ConnectionAck");
    reveal_strlit("ConnectionFail");
    reveal_strlit("ConnectionClosed");
    reveal_strlit("ChatMessage");
}

/// The codec loses nothing: the document that is written for a message
/// reads as that message.
pub proof fn lemma_document_round_trip(m: MessageView)
    ensures
        message_of(message_json(m)) == Some(m),
{
    lemma_names_differ();
}

/// A document whose member `type` names none of the five kinds is no
/// message, whatever else it holds.
pub proof fn lemma_unknown_kind(doc: Json)
    requires
        doc_text(doc, "type"@) != Some("ConnectionRequest"@),
        doc_text(doc, "type"@) != Some("ConnectionAck"@),
        doc_text(doc, "type"@) != Some("ConnectionFail"@),
        doc_text(doc, "type"@) != Some("ConnectionClosed"@),
        doc_text(doc, "type"@) != Some("ChatMessage"@),
    ensures
        message_of(doc) is None,
{
}

/// The text under `key` in a document.
fn text_field(v: &serde_json::Value, key: &str) -> (r: Option<String>)
    ensures
        match r {
            Some(s) => doc_text(json_of(*v), key@) == Some(s@),
            None => doc_text(json_of(*v), key@) is None,
        },
{
    match member(v, key) {
        Some(field) => match as_text(field) {
            Some(s) => Some(s.to_owned()),
            None => None,
        },
        None => None,
    }
}

/// The non-negative integer under `key` in a document.
fn number_field(v: &serde_json::Value, key: &str) -> (r: Option<u64>)
    ensures
        r == doc_number(json_of(*v), key@),
{
    match member(v, key) {
        Some(field) => as_number(field),
        None => None,
    }
}

/// The node id under `key` in a document.
fn node_field(v: &serde_json::Value, key: &str) -> (r: Option<u8>)
    ensures
        r == doc_node(json_of(*v), key@),
{
    match number_field(v, key) {
        Some(n) => if n <= 255 {
            Some(n as u8)
        } else {
            None
        },
        None => None,
    }
}

/// The sequence number under `key` in a document.
fn sequence_field(v: &serde_json::Value, key: &str) -> (r: Option<u32>)
    ensures
        r == doc_sequence(json_of(*v), key@),
{
    match number_field(v, key) {
        Some(n) => if n <= 0xffff_ffff {
            Some(n as u32)
        } else {
            None
        },
        None => None,
    }
}

/// Reads a message out of a parsed document.
pub fn message_from_value(v: &serde_json::Value) -> (r: Option<Message>)
    ensures
        match r {
            Some(m) => message_of(json_of(*v)) == Some(m@),
            None => message_of(json_of(*v)) is None,
        },
{
    let tag = match text_field(v, "type") {
        Some(tag) => tag,
        None => {
            return None;
        },
    };
    if same_text(tag.as_str(), "ConnectionRequest") {
        match (node_field(v, "from_node"), text_field(v, "nickname")) {
            (Some(from_node), Some(nickname)) => Some(
                Message::ConnectionRequest { from_node, nickname },
            ),
            _ => None,
        }
    } else if same_text(tag.as_str(), "ConnectionAck") {
        match (node_field(v, "from_node"), text_field(v, "nickname")) {
            (Some(from_node), Some(nickname)) => Some(
                Message::ConnectionAck { from_node, nickname },
            ),
            _ => None,
        }
    } else if same_text(tag.as_str(), "ConnectionFail") {
        match (node_field(v, "from_node"), text_field(v, "reason")) {
            (Some(from_node), Some(reason)) => Some(Message::ConnectionFail { from_node, reason }),
            _ => None,
        }
    } else if same_text(tag.as_str(), "ConnectionClosed") {
        match (
            node_field(v, "source_node"),
            sequence_field(v, "sequence_number"),
            node_field(v, "from_node"),
            text_field(v, "nickname"),
        ) {
            (Some(source_node), Some(sequence_number), Some(from_node), Some(nickname)) => Some(
                Message::ConnectionClosed { source_node, sequence_number, from_node, nickname },
            ),
            _ => None,
        }
    } else if same_text(tag.as_str(), "ChatMessage") {
        match (
            node_field(v, "source_node"),
            sequence_field(v, "sequence_number"),
            node_field(v, "from_node"),
            text_field(v, "nickname"),
            text_field(v, "content"),
        ) {
            (
                Some(source_node),
                Some(sequence_number),
                Some(from_node),
                Some(nickname),
                Some(content),
            ) => Some(
                Message::ChatMessage { source_node, sequence_number, from_node, nickname, content },
            ),
            _ => None,
        }
    } else {
        None
    }
}

/// Decodes one datagram. Bytes that are no JSON document, and documents that
/// are none of the five messages, give `None`.
pub fn decode(bytes: &[u8]) -> (r: Option<Message>)
    ensures
        match r {
            Some(m) => decoded(bytes@) == Some(m@),
            None => decoded(bytes@) is None,
        },
{
    match parse(bytes) {
        Ok(v) => message_from_value(&v),
        Err(_) => None,
    }
}

/// Builds the document of a message.
pub fn message_to_value(m: &Message) -> (v: serde_json::Value)
    ensures
        json_of(v) == message_json(m@),
{
    let mut v = empty_object();
    match m {
        Message::ConnectionRequest { from_node, nickname } => {
            put_member(&mut v, "type", text_value("ConnectionRequest"));
            put_member(&mut v, "from_node", number_value(*from_node as u64));
            put_member(&mut v, "nickname", text_value(nickname.as_str()));
        },
        Message::ConnectionAck { from_node, nickname } => {
            put_member(&mut v, "type", text_value("ConnectionAck"));
            put_member(&mut v, "from_node", number_value(*from_node as u64));
            put_member(&mut v, "nickname", text_value(nickname.as_str()));
        },
        Message::ConnectionFail { from_node, reason } => {
            put_member(&mut v, "type", text_value("ConnectionFail"));
            put_member(&mut v, "from_node", number_value(*from_node as u64));
            put_member(&mut v, "reason", text_value(reason.as_str()));
        },
        Message::ConnectionClosed { source_node, sequence_number, from_node, nickname } => {
            put_member(&mut v, "type", text_value("ConnectionClosed"));
            put_member(&mut v, "source_node", number_value(*source_node as u64));
            put_member(&mut v, "sequence_number", number_value(*sequence_number as u64));
            put_member(&mut v, "from_node", number_value(*from_node as u64));
            put_member(&mut v, "nickname", text_value(nickname.as_str()));
        },
        Message::ChatMessage { source_node, sequence_number, from_node, nickname, content } => {
            put_member(&mut v, "type", text_value("ChatMessage"));
            put_member(&mut v, "source_node", number_value(*source_node as u64));
            put_member(&mut v, "sequence_number", number_value(*sequence_number as u64));
            put_member(&mut v, "from_node", number_value(*from_node as u64));
            put_member(&mut v, "nickname", text_value(nickname.as_str()));
            put_member(&mut v, "content", text_value(content.as_str()));
        },
    }
    v
}

/// Encodes a message as the bytes of one datagram. `None` where the document
/// cannot be written; the message is then not sent.
pub fn encode(m: &Message) -> (r: Option<Vec<u8>>)
    ensures
        match r {
            Some(bytes) => encoded(m@) == Some(bytes@),
            None => encoded(m@) is None,
        },
{
    let v = message_to_value(m);
    match print(&v) {
        Ok(bytes) => Some(bytes),
        Err(_) => None,
    }
}

} // verus!
