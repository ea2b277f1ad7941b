use p2p_chat::message::{Message, MessageId};
use p2p_chat::wire::{decode, encode, message_from_value, message_to_value};

fn request() -> Message {
    Message::ConnectionRequest { from_node: 1, nickname: "alice".to_string() }
}

fn ack() -> Message {
    Message::ConnectionAck { from_node: 2, nickname: "bob".to_string() }
}

fn fail() -> Message {
    Message::ConnectionFail { from_node: 3, reason: "limit reached".to_string() }
}

fn closed() -> Message {
    Message::ConnectionClosed {
        source_node: 4,
        sequence_number: 17,
        from_node: 2,
        nickname: "dave".to_string(),
    }
}

fn chat() -> Message {
    Message::ChatMessage {
        source_node: 1,
        sequence_number: 4_000_000_000,
        from_node: 3,
        nickname: "alice".to_string(),
        content: "hi \"there\"\n\\ € 𝄞".to_string(),
    }
}

#[test]
fn every_kind_survives_the_wire() {
    for message in [request(), ack(), fail(), closed(), chat()] {
        let bytes = encode(&message).expect("a message can be written");
        assert_eq!(decode(&bytes), Some(message));
    }
}

#[test]
fn every_kind_survives_as_a_document() {
    for message in [request(), ack(), fail(), closed(), chat()] {
        let value = message_to_value(&message);
        assert_eq!(message_from_value(&value), Some(message));
    }
}

#[test]
fn a_request_is_an_object_with_its_fields() {
    let bytes = encode(&request()).unwrap();
    let value: serde_json::Value = serde_json::from_slice(&bytes).unwrap();
    let object = value.as_object().unwrap();
    assert_eq!(object.len(), 3);
    assert_eq!(object["type"].as_str(), Some("ConnectionRequest"));
    assert_eq!(object["from_node"].as_u64(), Some(1));
    assert_eq!(object["nickname"].as_str(), Some("alice"));
}

#[test]
fn a_chat_message_is_an_object_with_its_fields() {
    let bytes = encode(&chat()).unwrap();
    let value: serde_json::Value = serde_json::from_slice(&bytes).unwrap();
    let object = value.as_object().unwrap();
    assert_eq!(object.len(), 6);
    assert_eq!(object["type"].as_str(), Some("ChatMessage"));
    assert_eq!(object["source_node"].as_u64(), Some(1));
    assert_eq!(object["sequence_number"].as_u64(), Some(4_000_000_000));
    assert_eq!(object["from_node"].as_u64(), Some(3));
    assert_eq!(object["nickname"].as_str(), Some("alice"));
    assert_eq!(object["content"].as_str(), Some("hi \"there\"\n\\ € 𝄞"));
}

#[test]
fn a_closed_message_is_an_object_with_its_fields() {
    let value = message_to_value(&closed());
    let object = value.as_object().unwrap();
    assert_eq!(object.len(), 5);
    assert_eq!(object["type"].as_str(), Some("ConnectionClosed"));
    assert_eq!(object["source_node"].as_u64(), Some(4));
    assert_eq!(object["sequence_number"].as_u64(), Some(17));
    assert_eq!(object["from_node"].as_u64(), Some(2));
    assert_eq!(object["nickname"].as_str(), Some("dave"));
}

#[test]
fn a_fail_message_names_its_reason() {
    let value = message_to_value(&fail());
    let object = value.as_object().unwrap();
    assert_eq!(object.len(), 3);
    assert_eq!(object["type"].as_str(), Some("ConnectionFail"));
    assert_eq!(object["from_node"].as_u64(), Some(3));
    assert_eq!(object["reason"].as_str(), Some("limit reached"));
}

#[test]
fn written_bytes_are_compact_json() {
    assert_eq!(
        encode(&ack()).unwrap(),
        b"{\"from_node\":2,\"nickname\":\"bob\",\"type\":\"ConnectionAck\"}".to_vec()
    );
}

#[test]
fn the_tag_may_come_first() {
    let bytes = b"{\"type\":\"ConnectionRequest\",\"from_node\":1,\"nickname\":\"alice\"}";
    assert_eq!(decode(bytes), Some(request()));
}

#[test]
fn the_fields_may_come_in_any_order_and_with_white_space() {
    let bytes = b" {\n \"nickname\" : \"dave\", \"from_node\":2,\n\"type\":\"ConnectionClosed\",
        \"sequence_number\": 17 , \"source_node\":4 }\n";
    assert_eq!(decode(bytes), Some(closed()));
}

#[test]
fn members_that_the_kind_does_not_have_are_ignored() {
    let bytes = b"{\"type\":\"ConnectionAck\",\"from_node\":2,\"nickname\":\"bob\",\"content\":5,\"extra\":[1,{\"a\":null}]}";
    assert_eq!(decode(bytes), Some(ack()));
}

#[test]
fn escapes_in_strings_are_read() {
    let bytes = b"{\"type\":\"ChatMessage\",\"source_node\":1,\"sequence_number\":2,\"from_node\":3,\"nickname\":\"al\\u0069ce\",\"content\":\"a\\tb\\ud834\\udd1e\"}";
    assert_eq!(
        decode(bytes),
        Some(Message::ChatMessage {
            source_node: 1,
            sequence_number: 2,
            from_node: 3,
            nickname: "alice".to_string(),
            content: "a\tb𝄞".to_string(),
        })
    );
}

#[test]
fn an_unknown_tag_is_no_message() {
    assert_eq!(decode(b"{\"type\":\"Gossip\",\"from_node\":1,\"nickname\":\"alice\"}"), None);
    assert_eq!(decode(b"{\"type\":\"connectionrequest\",\"from_node\":1,\"nickname\":\"a\"}"), None);
    assert_eq!(decode(b"{\"type\":\"\",\"from_node\":1,\"nickname\":\"alice\"}"), None);
}

#[test]
fn a_missing_or_mistyped_tag_is_no_message() {
    assert_eq!(decode(b"{\"from_node\":1,\"nickname\":\"alice\"}"), None);
    assert_eq!(decode(b"{\"type\":1,\"from_node\":1,\"nickname\":\"alice\"}"), None);
    assert_eq!(decode(b"{\"type\":null,\"from_node\":1,\"nickname\":\"alice\"}"), None);
}

#[test]
fn a_missing_field_is_no_message() {
    assert_eq!(decode(b"{\"type\":\"ConnectionRequest\",\"from_node\":1}"), None);
    assert_eq!(decode(b"{\"type\":\"ConnectionRequest\",\"nickname\":\"alice\"}"), None);
    assert_eq!(decode(b"{\"type\":\"ConnectionFail\",\"from_node\":1,\"nickname\":\"a\"}"), None);
    assert_eq!(
        decode(b"{\"type\":\"ConnectionClosed\",\"source_node\":1,\"from_node\":1,\"nickname\":\"a\"}"),
        None
    );
    assert_eq!(
        decode(b"{\"type\":\"ChatMessage\",\"source_node\":1,\"sequence_number\":1,\"from_node\":1,\"nickname\":\"a\"}"),
        None
    );
}

#[test]
fn a_field_of_the_wrong_type_is_no_message() {
    assert_eq!(decode(b"{\"type\":\"ConnectionRequest\",\"from_node\":\"1\",\"nickname\":\"a\"}"), None);
    assert_eq!(decode(b"{\"type\":\"ConnectionRequest\",\"from_node\":1,\"nickname\":7}"), None);
    assert_eq!(decode(b"{\"type\":\"ConnectionRequest\",\"from_node\":1,\"nickname\":null}"), None);
    assert_eq!(decode(b"{\"type\":\"ConnectionRequest\",\"from_node\":true,\"nickname\":\"a\"}"), None);
}

#[test]
fn a_node_id_is_a_small_integer() {
    assert_eq!(
        decode(b"{\"type\":\"ConnectionRequest\",\"from_node\":255,\"nickname\":\"a\"}"),
        Some(Message::ConnectionRequest { from_node: 255, nickname: "a".to_string() })
    );
    assert_eq!(
        decode(b"{\"type\":\"ConnectionRequest\",\"from_node\":0,\"nickname\":\"a\"}"),
        Some(Message::ConnectionRequest { from_node: 0, nickname: "a".to_string() })
    );
    assert_eq!(decode(b"{\"type\":\"ConnectionRequest\",\"from_node\":256,\"nickname\":\"a\"}"), None);
    assert_eq!(decode(b"{\"type\":\"ConnectionRequest\",\"from_node\":-1,\"nickname\":\"a\"}"), None);
    assert_eq!(decode(b"{\"type\":\"ConnectionRequest\",\"from_node\":1.5,\"nickname\":\"a\"}"), None);
    assert_eq!(decode(b"{\"type\":\"ConnectionRequest\",\"from_node\":1.0,\"nickname\":\"a\"}"), None);
    assert_eq!(
        decode(b"{\"type\":\"ConnectionRequest\",\"from_node\":99999999999999999999999,\"nickname\":\"a\"}"),
        None
    );
}

#[test]
fn a_sequence_number_fits_thirty_two_bits() {
    let with = |n: &str| {
        format!(
            "{{\"type\":\"ConnectionClosed\",\"source_node\":1,\"sequence_number\":{},\"from_node\":1,\"nickname\":\"a\"}}",
            n
        )
    };
    assert_eq!(
        decode(with("4294967295").as_bytes()).and_then(|m| m.id()),
        Some(MessageId { source_node: 1, sequence_number: u32::MAX })
    );
    assert_eq!(decode(with("4294967296").as_bytes()), None);
    assert_eq!(decode(with("-3").as_bytes()), None);
    assert_eq!(decode(with("18446744073709551615").as_bytes()), None);
}

#[test]
fn bytes_that_are_no_json_object_are_no_message() {
    assert_eq!(decode(b""), None);
    assert_eq!(decode(b"hello"), None);
    assert_eq!(decode(b"{"), None);
    assert_eq!(decode(b"null"), None);
    assert_eq!(decode(b"[\"ConnectionRequest\",1,\"alice\"]"), None);
    assert_eq!(decode(b"\"ConnectionRequest\""), None);
    assert_eq!(decode(&[0xff, 0xfe, 0x00]), None);
    assert_eq!(
        decode(b"{\"type\":\"ConnectionRequest\",\"from_node\":1,\"nickname\":\"alice\"} trailing"),
        None
    );
}

#[test]
fn a_document_that_is_no_object_is_no_message() {
    assert_eq!(message_from_value(&serde_json::Value::Null), None);
    assert_eq!(message_from_value(&serde_json::Value::from("ChatMessage")), None);
    assert_eq!(message_from_value(&serde_json::Value::from(7u64)), None);
    assert_eq!(message_from_value(&serde_json::Value::Array(Vec::new())), None);
}

#[test]
fn a_document_built_by_hand_is_read() {
    let mut map = serde_json::Map::new();
    map.insert("type".to_string(), serde_json::Value::from("ConnectionFail"));
    map.insert("from_node".to_string(), serde_json::Value::from(9u64));
    map.insert("reason".to_string(), serde_json::Value::from("already connected"));
    assert_eq!(
        message_from_value(&serde_json::Value::Object(map)),
        Some(Message::ConnectionFail { from_node: 9, reason: "already connected".to_string() })
    );
}

#[test]
fn only_flooded_messages_have_an_identity() {
    assert_eq!(request().id(), None);
    assert_eq!(ack().id(), None);
    assert_eq!(fail().id(), None);
    assert_eq!(closed().id(), Some(MessageId { source_node: 4, sequence_number: 17 }));
    assert_eq!(chat().id(), Some(MessageId { source_node: 1, sequence_number: 4_000_000_000 }));
}

#[test]
fn every_message_names_the_sender_of_the_hop() {
    assert_eq!(request().from_node(), 1);
    assert_eq!(ack().from_node(), 2);
    assert_eq!(fail().from_node(), 3);
    assert_eq!(closed().from_node(), 2);
    assert_eq!(chat().from_node(), 3);
}

#[test]
fn a_clone_is_equal() {
    for message in [request(), ack(), fail(), closed(), chat()] {
        assert_eq!(message.clone(), message);
    }
}
