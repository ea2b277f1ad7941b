//! What a node does, as mathematics: its state, and for each event the state
//! that follows and the actions that the caller is to carry out. The
//! executable node is specified by these functions, and the laws of the
//! protocol are proved of them.

use vstd::prelude::*;
use crate::message::{MessageId, MessageView};
use crate::peers::{
    ascending, count_towards, has_peer, refreshed, with_peer, without_peer, Address, Direction,
    PeerInfoView,
};
use crate::roster::{distinct_ids, names, RosterEntryView};
use crate::text::trimmed;
use crate::wire::decoded;

verus! {

/// Something that the caller is to do after an event, in the order given.
pub enum ActionView {
    /// Answer a handshake request at the address it came from.
    Reply { to: Address, message: MessageView },
    /// Send a flooded message to one peer of the table.
    Forward { peer: u8, to: Address, message: MessageView },
    /// Tell the user that a peer has connected.
    PeerConnected { peer: u8 },
    /// Tell the user that the node with this nickname has left.
    PeerLeft { nickname: Seq<char> },
    /// Show a chat line.
    ChatLine { nickname: Seq<char>, content: Seq<char> },
    /// Show the peers.
    ShowPeers { peers: Seq<PeerInfoView> },
    /// Show the commands.
    ShowHelp,
    /// Stop every loop.
    Shutdown,
}

/// What the user typed, after trimming.
pub enum CommandView {
    /// An empty line.
    Nothing,
    Quit,
    List,
    Help,
    /// Any other line: chat content.
    Chat { content: Seq<char> },
}

/// Reads a line of input.
pub open spec fn command_of(line: Seq<char>) -> CommandView {
    let input = trimmed(line);
    if input.len() == 0 {
        CommandView::Nothing
    } else if input == "\\quit"@ {
        CommandView::Quit
    } else if input == "\\list"@ {
        CommandView::List
    } else if input == "\\help"@ {
        CommandView::Help
    } else {
        CommandView::Chat { content: input }
    }
}

/// Why a node sweeps the roster for peers to dial.
#[derive(Clone, Copy, PartialEq, Eq, Structural, Debug)]
pub enum Sweep {
    /// The first attempt, when the node starts.
    Initial,
    /// The short timer: the node is alone.
    Bootstrap,
    /// The long timer: the node has fewer peers than it may dial.
    TopUp,
}

/// The seconds between two turns of the short timer.
pub const BOOTSTRAP_INTERVAL_SECS: u64 = 3;

/// The seconds between two turns of the long timer.
pub const TOP_UP_INTERVAL_SECS: u64 = 10;

/// The milliseconds to wait after each request of a paced sweep.
pub const DIAL_PACING_MILLIS: u64 = 500;

impl Sweep {
    /// Whether the sweep waits after each request. The first attempt and the
    /// short timer do, so that a lone node does not send a burst.
    pub open spec fn paced(self) -> bool {
        self != Sweep::TopUp
    }

    /// Tells whether the sweep waits after each request.
    pub fn is_paced(self) -> (r: bool)
        ensures
            r == self.paced(),
    {
        match self {
            Sweep::TopUp => false,
            _ => true,
        }
    }
}

/// Something that happens to a node.
pub enum EventView {
    /// A message arrives from `sender` at time `now`.
    Message { message: MessageView, sender: Address, now: u64 },
    /// A datagram arrives from `sender` at time `now`.
    Datagram { bytes: Seq<u8>, sender: Address, now: u64 },
    /// The user sends chat content.
    Chat { content: Seq<char> },
    /// The user enters a line.
    Input { line: Seq<char> },
    /// The user leaves.
    Leave,
}

/// What a sweep does with one candidate.
pub enum DialStepView {
    /// Go on with the next candidate.
    Skip,
    /// End the sweep.
    Stop,
    /// Resolve `host` and send `message` there, then go on.
    Request { peer: u8, host: Seq<char>, port: u16, message: MessageView },
}

/// The entry of the node `id` in a roster that names it.
pub open spec fn entry_of(roster: Seq<RosterEntryView>, id: u8) -> RosterEntryView
    recommends
        names(roster, id),
{
    roster[choose|i: int| 0 <= i < roster.len() && roster[i].id == id]
}

/// In a roster without a repeated id, an entry is the entry of its id.
pub proof fn lemma_entry_of(roster: Seq<RosterEntryView>, entry: RosterEntryView)
    requires
        distinct_ids(roster),
        roster.contains(entry),
    ensures
        names(roster, entry.id),
        entry_of(roster, entry.id) == entry,
{
    let j = choose|j: int| 0 <= j < roster.len() && roster[j] == entry;
    assert(roster[j].id == entry.id);
    let i = choose|i: int| 0 <= i < roster.len() && roster[i].id == entry.id;
    assert(i == j);
}

/// The state of a node.
pub struct NodeView {
    pub id: u8,
    pub nickname: Seq<char>,
    /// The port on which the node listens.
    pub port: u16,
    /// The degree bound K: the most connections in one direction.
    pub limit: usize,
    pub roster: Seq<RosterEntryView>,
    pub peers: Seq<PeerInfoView>,
    /// The dedup cache.
    pub seen: Set<MessageId>,
    /// The number given to the latest message that this node originated.
    pub sequence: u32,
    pub shut_down: bool,
}

/// One transmission of `message` to every peer of `peers` but `except`, by
/// ascending id.
pub open spec fn forwards(peers: Seq<PeerInfoView>, except: Option<u8>, message: MessageView) -> Seq<
    ActionView,
> {
    peers.filter(is_not_peer(except)).map_values(forward_to(message))
}

/// The peers that a flooded message goes to: every one but `except`.
pub open spec fn is_not_peer(except: Option<u8>) -> spec_fn(PeerInfoView) -> bool {
    |p: PeerInfoView| except != Some(p.id)
}

/// The transmission of `message` to a peer.
pub open spec fn forward_to(message: MessageView) -> spec_fn(PeerInfoView) -> ActionView {
    |p: PeerInfoView| ActionView::Forward { peer: p.id, to: p.address, message }
}

impl NodeView {
    /// The state of a node that has just started.
    pub open spec fn initial(
        id: u8,
        nickname: Seq<char>,
        roster: Seq<RosterEntryView>,
        limit: usize,
    ) -> NodeView {
        NodeView {
            id,
            nickname,
            port: entry_of(roster, id).port,
            limit,
            roster,
            peers: Seq::empty(),
            seen: Set::empty(),
            sequence: 0,
            shut_down: false,
        }
    }

    /// Holds of every state: one entry for each peer, one for each node of
    /// the roster.
    pub open spec fn wf(self) -> bool {
        ascending(self.peers) && distinct_ids(self.roster)
    }

    /// The number of peers that the node dialled.
    pub open spec fn outgoing(self) -> nat {
        count_towards(self.peers, Direction::Outgoing)
    }

    /// The number of peers that dialled the node.
    pub open spec fn incoming(self) -> nat {
        count_towards(self.peers, Direction::Incoming)
    }

    /// The degree bound: at most K peers in each direction and K+1 in all.
    pub open spec fn within_bound(self) -> bool {
        &&& self.outgoing() <= self.limit
        &&& self.incoming() <= self.limit
        &&& self.peers.len() <= self.limit + 1
    }

    /// Whether the node still dials: fewer than K outgoing peers and fewer
    /// than K+1 in all.
    pub open spec fn may_dial(self) -> bool {
        self.outgoing() < self.limit && self.peers.len() < self.limit + 1
    }

    /// Whether the node still accepts: fewer than K incoming peers and fewer
    /// than K+1 in all.
    pub open spec fn may_accept(self) -> bool {
        self.incoming() < self.limit && self.peers.len() < self.limit + 1
    }

    /// A request to connect arrives from `sender`.
    pub open spec fn on_request(self, from_node: u8, nickname: Seq<char>, sender: Address, now: u64) -> (
        NodeView,
        Seq<ActionView>,
    ) {
        if has_peer(self.peers, from_node) {
            (
                self,
                seq![
                    ActionView::Reply {
                        to: sender,
                        message: MessageView::ConnectionFail {
                            from_node: self.id,
                            reason: "already connected"@,
                        },
                    },
                ],
            )
        } else if !self.may_accept() {
            (
                self,
                seq![
                    ActionView::Reply {
                        to: sender,
                        message: MessageView::ConnectionFail {
                            from_node: self.id,
                            reason: "limit reached"@,
                        },
                    },
                ],
            )
        } else {
            let peer = PeerInfoView {
                id: from_node,
                address: sender,
                nickname,
                direction: Direction::Incoming,
                last_seen: now,
            };
            (
                NodeView { peers: with_peer(self.peers, peer), ..self },
                seq![
                    ActionView::Reply {
                        to: sender,
                        message: MessageView::ConnectionAck {
                            from_node: self.id,
                            nickname: self.nickname,
                        },
                    },
                    ActionView::PeerConnected { peer: from_node },
                ],
            )
        }
    }

    /// An acknowledgement arrives from `sender`. It is taken at its word:
    /// an unknown sender becomes an outgoing peer, a known one is refreshed.
    pub open spec fn on_ack(self, from_node: u8, nickname: Seq<char>, sender: Address, now: u64) -> (
        NodeView,
        Seq<ActionView>,
    ) {
        if has_peer(self.peers, from_node) {
            (NodeView { peers: refreshed(self.peers, from_node, nickname, now), ..self }, seq![])
        } else {
            let peer = PeerInfoView {
                id: from_node,
                address: sender,
                nickname,
                direction: Direction::Outgoing,
                last_seen: now,
            };
            (
                NodeView { peers: with_peer(self.peers, peer), ..self },
                seq![ActionView::PeerConnected { peer: from_node }],
            )
        }
    }

    /// A chat message arrives. A message seen before is dropped; a new one
    /// is remembered, shown, and passed on to every peer but the one it came
    /// from.
    pub open spec fn on_chat(
        self,
        id: MessageId,
        from_node: u8,
        nickname: Seq<char>,
        content: Seq<char>,
    ) -> (NodeView, Seq<ActionView>) {
        if self.seen.contains(id) {
            (self, seq![])
        } else {
            let relayed = MessageView::ChatMessage {
                source_node: id.source_node,
                sequence_number: id.sequence_number,
                from_node: self.id,
                nickname,
                content,
            };
            (
                NodeView { seen: self.seen.insert(id), ..self },
                seq![ActionView::ChatLine { nickname, content }] + forwards(
                    self.peers,
                    Some(from_node),
                    relayed,
                ),
            )
        }
    }

    /// A leave notification arrives. One seen before is dropped; a new one
    /// is remembered, its origin leaves the table (with a notice if it was
    /// there), and it is passed on to every remaining peer but the one it
    /// came from.
    pub open spec fn on_closed(self, id: MessageId, from_node: u8, nickname: Seq<char>) -> (
        NodeView,
        Seq<ActionView>,
    ) {
        if self.seen.contains(id) {
            (self, seq![])
        } else {
            let relayed = MessageView::ConnectionClosed {
                source_node: id.source_node,
                sequence_number: id.sequence_number,
                from_node: self.id,
                nickname,
            };
            let remaining = without_peer(self.peers, id.source_node);
            let notice = if has_peer(self.peers, id.source_node) {
                seq![ActionView::PeerLeft { nickname }]
            } else {
                seq![]
            };
            (
                NodeView { seen: self.seen.insert(id), peers: remaining, ..self },
                notice + forwards(remaining, Some(from_node), relayed),
            )
        }
    }

    /// A message arrives from `sender` at time `now`.
    pub open spec fn handle(self, message: MessageView, sender: Address, now: u64) -> (
        NodeView,
        Seq<ActionView>,
    ) {
        match message {
            MessageView::ConnectionRequest { from_node, nickname } => self.on_request(
                from_node,
                nickname,
                sender,
                now,
            ),
            MessageView::ConnectionAck { from_node, nickname } => self.on_ack(
                from_node,
                nickname,
                sender,
                now,
            ),
            MessageView::ConnectionFail { .. } => (self, seq![]),
            MessageView::ConnectionClosed { source_node, sequence_number, from_node, nickname } => {
                self.on_closed(MessageId { source_node, sequence_number }, from_node, nickname)
            },
            MessageView::ChatMessage {
                source_node,
                sequence_number,
                from_node,
                nickname,
                content,
            } => self.on_chat(
                MessageId { source_node, sequence_number },
                from_node,
                nickname,
                content,
            ),
        }
    }

    /// A datagram arrives. One that does not decode changes nothing.
    pub open spec fn receive(self, bytes: Seq<u8>, sender: Address, now: u64) -> (
        NodeView,
        Seq<ActionView>,
    ) {
        match decoded(bytes) {
            Some(message) => self.handle(message, sender, now),
            None => (self, seq![]),
        }
    }

    /// Whether the node can still number a message of its own.
    pub open spec fn can_originate(self) -> bool {
        self.sequence < u32::MAX
    }

    /// The identity that the next message of this node gets.
    pub open spec fn next_id(self) -> MessageId {
        MessageId { source_node: self.id, sequence_number: (self.sequence + 1) as u32 }
    }

    /// The node floods a message of its own under [`Self::next_id`]: the
    /// number is used up, the identity is remembered, and the message goes to
    /// every peer. Should the identity have been seen already, nothing is
    /// sent.
    pub open spec fn originate(self, message: MessageView) -> (NodeView, Seq<ActionView>)
        recommends
            self.can_originate(),
    {
        let id = self.next_id();
        let numbered = NodeView { sequence: id.sequence_number, ..self };
        if self.seen.contains(id) {
            (numbered, seq![])
        } else {
            (
                NodeView { seen: self.seen.insert(id), ..numbered },
                forwards(self.peers, None, message),
            )
        }
    }

    /// The chat message that this node would originate next.
    pub open spec fn own_chat(self, content: Seq<char>) -> MessageView {
        MessageView::ChatMessage {
            source_node: self.id,
            sequence_number: self.next_id().sequence_number,
            from_node: self.id,
            nickname: self.nickname,
            content,
        }
    }

    /// The leave notification that this node would originate next.
    pub open spec fn own_closed(self) -> MessageView {
        MessageView::ConnectionClosed {
            source_node: self.id,
            sequence_number: self.next_id().sequence_number,
            from_node: self.id,
            nickname: self.nickname,
        }
    }

    /// The user sends chat content.
    pub open spec fn send_chat(self, content: Seq<char>) -> (NodeView, Seq<ActionView>)
        recommends
            self.can_originate(),
    {
        self.originate(self.own_chat(content))
    }

    /// The user leaves: the peers are told, as far as a number is left for
    /// the notification, and the node shuts down.
    pub open spec fn leave(self) -> (NodeView, Seq<ActionView>) {
        if self.can_originate() {
            let (next, sends) = self.originate(self.own_closed());
            (NodeView { shut_down: true, ..next }, sends.push(ActionView::Shutdown))
        } else {
            (NodeView { shut_down: true, ..self }, seq![ActionView::Shutdown])
        }
    }

    /// The user enters a line.
    pub open spec fn on_input(self, line: Seq<char>) -> (NodeView, Seq<ActionView>)
        recommends
            command_of(line) is Chat ==> self.can_originate(),
    {
        match command_of(line) {
            CommandView::Nothing => (self, seq![]),
            CommandView::Quit => self.leave(),
            CommandView::List => (self, seq![ActionView::ShowPeers { peers: self.peers }]),
            CommandView::Help => (self, seq![ActionView::ShowHelp]),
            CommandView::Chat { content } => self.send_chat(content),
        }
    }

    /// What a sweep does when it comes to `candidate`. A node that is
    /// connected already, the node itself and a node that the roster does
    /// not name are passed over; at the degree bound the sweep ends; any
    /// other candidate gets a request.
    pub open spec fn dial(self, candidate: u8) -> DialStepView {
        if candidate == self.id || !names(self.roster, candidate) || has_peer(
            self.peers,
            candidate,
        ) {
            DialStepView::Skip
        } else if !self.may_dial() {
            DialStepView::Stop
        } else {
            let entry = entry_of(self.roster, candidate);
            DialStepView::Request {
                peer: candidate,
                host: entry.host,
                port: entry.port,
                message: MessageView::ConnectionRequest {
                    from_node: self.id,
                    nickname: self.nickname,
                },
            }
        }
    }

    /// Whether a sweep for this reason is to be made now.
    pub open spec fn sweep_due(self, reason: Sweep) -> bool {
        &&& self.may_dial()
        &&& match reason {
            Sweep::Initial => true,
            Sweep::Bootstrap => self.peers.len() == 0,
            Sweep::TopUp => self.peers.len() < self.limit,
        }
    }

    /// The state after an event, and the actions it asks for. Chat content
    /// for which no sequence number is left changes nothing.
    pub open spec fn step(self, event: EventView) -> (NodeView, Seq<ActionView>) {
        match event {
            EventView::Message { message, sender, now } => self.handle(message, sender, now),
            EventView::Datagram { bytes, sender, now } => self.receive(bytes, sender, now),
            EventView::Chat { content } => if self.can_originate() {
                self.send_chat(content)
            } else {
                (self, seq![])
            },
            EventView::Input { line } => if command_of(line) is Chat && !self.can_originate() {
                (self, seq![])
            } else {
                self.on_input(line)
            },
            EventView::Leave => self.leave(),
        }
    }

    /// The state after a run of events.
    pub open spec fn run(self, events: Seq<EventView>) -> NodeView
        decreases events.len(),
    {
        if events.len() == 0 {
            self
        } else {
            self.step(events.first()).0.run(events.drop_first())
        }
    }
}

} // verus!
