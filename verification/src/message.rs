//! The five protocol messages and the identity of a flooded message.

use vstd::prelude::*;

verus! {

/// Identifies one flooded message: the node that originated it and the
/// number that node gave it. Forwarding never changes it.
#[derive(Clone, Copy, PartialEq, Eq, Structural, Debug, Hash)]
pub struct MessageId {
    pub source_node: u8,
    pub sequence_number: u32,
}

/// A protocol message. The first three make up the handshake and travel one
/// hop; the last two are flooded through the mesh.
#[derive(Debug, PartialEq, Eq)]
pub enum Message {
    ConnectionRequest { from_node: u8, nickname: String },
    ConnectionAck { from_node: u8, nickname: String },
    ConnectionFail { from_node: u8, reason: String },
    ConnectionClosed { source_node: u8, sequence_number: u32, from_node: u8, nickname: String },
    ChatMessage {
        source_node: u8,
        sequence_number: u32,
        from_node: u8,
        nickname: String,
        content: String,
    },
}

/// A [`Message`] with its texts as sequences of characters.
pub enum MessageView {
    ConnectionRequest { from_node: u8, nickname: Seq<char> },
    ConnectionAck { from_node: u8, nickname: Seq<char> },
    ConnectionFail { from_node: u8, reason: Seq<char> },
    ConnectionClosed { source_node: u8, sequence_number: u32, from_node: u8, nickname: Seq<char> },
    ChatMessage {
        source_node: u8,
        sequence_number: u32,
        from_node: u8,
        nickname: Seq<char>,
        content: Seq<char>,
    },
}

impl MessageView {
    /// The identity under which a flooded message is remembered; a handshake
    /// message has none.
    pub open spec fn id(self) -> Option<MessageId> {
        match self {
            MessageView::ConnectionClosed { source_node, sequence_number, .. } => Some(
                MessageId { source_node, sequence_number },
            ),
            MessageView::ChatMessage { source_node, sequence_number, .. } => Some(
                MessageId { source_node, sequence_number },
            ),
            _ => None,
        }
    }

    /// The node that sent this copy of the message over the last hop.
    pub open spec fn from_node(self) -> u8 {
        match self {
            MessageView::ConnectionRequest { from_node, .. } => from_node,
            MessageView::ConnectionAck { from_node, .. } => from_node,
            MessageView::ConnectionFail { from_node, .. } => from_node,
            MessageView::ConnectionClosed { from_node, .. } => from_node,
            MessageView::ChatMessage { from_node, .. } => from_node,
        }
    }

    /// The same flooded message as `forwarder` passes it on: only the sender
    /// of the hop changes. A handshake message is returned as it is.
    pub open spec fn relayed_by(self, forwarder: u8) -> MessageView {
        match self {
            MessageView::ConnectionClosed { source_node, sequence_number, nickname, .. } => {
                MessageView::ConnectionClosed {
                    source_node,
                    sequence_number,
                    from_node: forwarder,
                    nickname,
                }
            },
            MessageView::ChatMessage { source_node, sequence_number, nickname, content, .. } => {
                MessageView::ChatMessage {
                    source_node,
                    sequence_number,
                    from_node: forwarder,
                    nickname,
                    content,
                }
            },
            other => other,
        }
    }
}

impl View for Message {
    type V = MessageView;

    open spec fn view(&self) -> MessageView {
        match *self {
            Message::ConnectionRequest { from_node, nickname } => MessageView::ConnectionRequest {
                from_node,
                nickname: nickname@,
            },
            Message::ConnectionAck { from_node, nickname } => MessageView::ConnectionAck {
                from_node,
                nickname: nickname@,
            },
            Message::ConnectionFail { from_node, reason } => MessageView::ConnectionFail {
                from_node,
                reason: reason@,
            },
            Message::ConnectionClosed { source_node, sequence_number, from_node, nickname } => {
                MessageView::ConnectionClosed {
                    source_node,
                    sequence_number,
                    from_node,
                    nickname: nickname@,
                }
            },
            Message::ChatMessage { source_node, sequence_number, from_node, nickname, content } => {
                MessageView::ChatMessage {
                    source_node,
                    sequence_number,
                    from_node,
                    nickname: nickname@,
                    content: content@,
                }
            },
        }
    }
}

impl Clone for Message {
    fn clone(&self) -> (r: Self)
        ensures
            r == *self,
    {
        match self {
            Message::ConnectionRequest { from_node, nickname } => Message::ConnectionRequest {
                from_node: *from_node,
                nickname: nickname.clone(),
            },
            Message::ConnectionAck { from_node, nickname } => Message::ConnectionAck {
                from_node: *from_node,
                nickname: nickname.clone(),
            },
            Message::ConnectionFail { from_node, reason } => Message::ConnectionFail {
                from_node: *from_node,
                reason: reason.clone(),
            },
            Message::ConnectionClosed { source_node, sequence_number, from_node, nickname } => {
                Message::ConnectionClosed {
                    source_node: *source_node,
                    sequence_number: *sequence_number,
                    from_node: *from_node,
                    nickname: nickname.clone(),
                }
            },
            Message::ChatMessage { source_node, sequence_number, from_node, nickname, content } => {
                Message::ChatMessage {
                    source_node: *source_node,
                    sequence_number: *sequence_number,
                    from_node: *from_node,
                    nickname: nickname.clone(),
                    content: content.clone(),
                }
            },
        }
    }
}

impl Message {
    /// The identity of a flooded message, `None` for a handshake message.
    pub fn id(&self) -> (r: Option<MessageId>)
        ensures
            r == self@.id(),
    {
        match self {
            Message::ConnectionClosed { source_node, sequence_number, .. } => Some(
                MessageId { source_node: *source_node, sequence_number: *sequence_number },
            ),
            Message::ChatMessage { source_node, sequence_number, .. } => Some(
                MessageId { source_node: *source_node, sequence_number: *sequence_number },
            ),
            _ => None,
        }
    }

    /// The node that sent this copy of the message over the last hop.
    pub fn from_node(&self) -> (r: u8)
        ensures
            r == self@.from_node(),
    {
        match self {
            Message::ConnectionRequest { from_node, .. } => *from_node,
            Message::ConnectionAck { from_node, .. } => *from_node,
            Message::ConnectionFail { from_node, .. } => *from_node,
            Message::ConnectionClosed { from_node, .. } => *from_node,
            Message::ChatMessage { from_node, .. } => *from_node,
        }
    }
}

} // verus!
