//! The node: the state that one participant owns, and what it does on each
//! event. Nothing here touches a socket or a clock: every function takes the
//! event as plain values and returns the actions for the caller to carry out.

use vstd::prelude::*;
use crate::chance::shuffle;
use crate::dedup::DedupCache;
use crate::identity::{is_valid_nickname, valid_nickname};
use crate::laws::{late_ack, lemma_never_back_to_sender, lemma_step_keeps_bound};
use crate::message::{Message, MessageId};
use crate::model::{
    command_of, forward_to, forwards, is_not_peer, lemma_entry_of, ActionView, DialStepView,
    EventView, NodeView, Sweep,
};
use crate::peers::{ascending, has_peer, peer_views, Address, Direction, PeerInfo, PeerTable};
use crate::roster::{candidates, names, Roster};
use crate::text::{same_text, trim};
use crate::wire::decode;

verus! {

/// Something that the caller is to do after an event.
#[derive(Debug, PartialEq, Eq)]
pub enum Action {
    /// Answer a handshake request at the address it came from.
    Reply { to: Address, message: Message },
    /// Send a flooded message to one peer of the table.
    Forward { peer: u8, to: Address, message: Message },
    /// Tell the user that a peer has connected.
    PeerConnected { peer: u8 },
    /// Tell the user that the node with this nickname has left.
    PeerLeft { nickname: String },
    /// Show a chat line.
    ChatLine { nickname: String, content: String },
    /// Show the peers.
    ShowPeers { peers: Vec<PeerInfo> },
    /// Show the commands.
    ShowHelp,
    /// Stop every loop.
    Shutdown,
}

impl View for Action {
    type V = ActionView;

    open spec fn view(&self) -> ActionView {
        match *self {
            Action::Reply { to, message } => ActionView::Reply { to, message: message@ },
            Action::Forward { peer, to, message } => ActionView::Forward {
                peer,
                to,
                message: message@,
            },
            Action::PeerConnected { peer } => ActionView::PeerConnected { peer },
            Action::PeerLeft { nickname } => ActionView::PeerLeft { nickname: nickname@ },
            Action::ChatLine { nickname, content } => ActionView::ChatLine {
                nickname: nickname@,
                content: content@,
            },
            Action::ShowPeers { peers } => ActionView::ShowPeers { peers: peer_views(peers@) },
            Action::ShowHelp => ActionView::ShowHelp,
            Action::Shutdown => ActionView::Shutdown,
        }
    }
}

/// The views of a list of actions, in its order.
pub open spec fn action_views(v: Seq<Action>) -> Seq<ActionView> {
    v.map_values(|a: Action| a@)
}

/// Something that happens to a node.
#[derive(Debug, PartialEq, Eq)]
pub enum Event {
    /// A message arrives from `sender` at time `now`.
    Message { message: Message, sender: Address, now: u64 },
    /// A datagram arrives from `sender` at time `now`.
    Datagram { bytes: Vec<u8>, sender: Address, now: u64 },
    /// The user sends chat content.
    Chat { content: String },
    /// The user enters a line.
    Input { line: String },
    /// The user leaves.
    Leave,
}

impl View for Event {
    type V = EventView;

    open spec fn view(&self) -> EventView {
        match *self {
            Event::Message { message, sender, now } => EventView::Message {
                message: message@,
                sender,
                now,
            },
            Event::Datagram { bytes, sender, now } => EventView::Datagram {
                bytes: bytes@,
                sender,
                now,
            },
            Event::Chat { content } => EventView::Chat { content: content@ },
            Event::Input { line } => EventView::Input { line: line@ },
            Event::Leave => EventView::Leave,
        }
    }
}

/// Why a node cannot be made.
#[derive(Clone, Copy, PartialEq, Eq, Structural, Debug)]
pub enum ConfigError {
    /// The roster does not name the id.
    InvalidNodeId,
    /// The nickname is too long, or holds white space or a control character.
    InvalidNickname,
}

/// Why a node cannot send a message of its own.
#[derive(Clone, Copy, PartialEq, Eq, Structural, Debug)]
pub enum SendError {
    /// Every sequence number has been used.
    SequenceExhausted,
}

/// What a sweep does with one candidate.
#[derive(Debug, PartialEq, Eq)]
pub enum DialStep {
    /// Go on with the next candidate.
    Skip,
    /// End the sweep.
    Stop,
    /// Resolve `host` and send `message` there, then go on.
    Request { peer: u8, host: String, port: u16, message: Message },
}

impl View for DialStep {
    type V = DialStepView;

    open spec fn view(&self) -> DialStepView {
        match *self {
            DialStep::Skip => DialStepView::Skip,
            DialStep::Stop => DialStepView::Stop,
            DialStep::Request { peer, host, port, message } => DialStepView::Request {
                peer,
                host: host@,
                port,
                message: message@,
            },
        }
    }
}

/// One participant of the overlay.
#[derive(Debug)]
pub struct Node {
    id: u8,
    nickname: String,
    port: u16,
    limit: usize,
    roster: Roster,
    peers: PeerTable,
    seen: DedupCache,
    sequence: u32,
    shut_down: bool,
}

impl View for Node {
    type V = NodeView;

    closed spec fn view(&self) -> NodeView {
        NodeView {
            id: self.id,
            nickname: self.nickname@,
            port: self.port,
            limit: self.limit,
            roster: self.roster@,
            peers: self.peers@,
            seen: self.seen@,
            sequence: self.sequence,
            shut_down: self.shut_down,
        }
    }
}

impl Node {
    /// Makes the node `id` of `roster`, with no peers and nothing seen.
    /// `limit` is the degree bound K. The id is checked first, then the
    /// nickname.
    pub fn new(id: u8, nickname: String, roster: Roster, limit: usize) -> (r: Result<
        Node,
        ConfigError,
    >)
        ensures
            match r {
                Ok(node) => {
                    &&& names(roster@, id)
                    &&& valid_nickname(nickname@)
                    &&& node@ == NodeView::initial(id, nickname@, roster@, limit)
                    &&& node@.wf()
                },
                Err(ConfigError::InvalidNodeId) => !names(roster@, id),
                Err(ConfigError::InvalidNickname) => names(roster@, id) && !valid_nickname(
                    nickname@,
                ),
            },
    {
        proof {
            use_type_invariant(&roster);
        }
        let port = match roster.find(id) {
            Some(entry) => {
                proof {
                    lemma_entry_of(roster@, entry@);
                }
                entry.port
            },
            None => {
                return Err(ConfigError::InvalidNodeId);
            },
        };
        if !is_valid_nickname(nickname.as_str()) {
            return Err(ConfigError::InvalidNickname);
        }
        let node = Node {
            id,
            nickname,
            port,
            limit,
            roster,
            peers: PeerTable::new(),
            seen: DedupCache::new(),
            sequence: 0,
            shut_down: false,
        };
        Ok(node)
    }

    /// The id of this node.
    pub fn id(&self) -> (r: u8)
        ensures
            r == self@.id,
    {
        self.id
    }

    /// The nickname of this node.
    pub fn nickname(&self) -> (r: &str)
        ensures
            r@ == self@.nickname,
    {
        self.nickname.as_str()
    }

    /// The port on which this node listens: that of its roster entry.
    pub fn port(&self) -> (r: u16)
        ensures
            r == self@.port,
    {
        self.port
    }

    /// The degree bound K.
    pub fn limit(&self) -> (r: usize)
        ensures
            r == self@.limit,
    {
        self.limit
    }

    /// The number of peers.
    pub fn peer_count(&self) -> (r: usize)
        ensures
            r == self@.peers.len(),
    {
        self.peers.len()
    }

    /// The number of peers that this node dialled.
    pub fn outgoing_count(&self) -> (r: usize)
        ensures
            r == self@.outgoing(),
    {
        self.peers.count(Direction::Outgoing)
    }

    /// The number of peers that dialled this node.
    pub fn incoming_count(&self) -> (r: usize)
        ensures
            r == self@.incoming(),
    {
        self.peers.count(Direction::Incoming)
    }

    /// Tells whether `id` is a peer.
    pub fn has_peer(&self, id: u8) -> (r: bool)
        ensures
            r == has_peer(self@.peers, id),
    {
        self.peers.contains(id)
    }

    /// Tells whether the dedup cache holds `id`.
    pub fn has_seen(&self, id: MessageId) -> (r: bool)
        ensures
            r == self@.seen.contains(id),
    {
        self.seen.seen(id)
    }

    /// The number given to the latest message that this node originated; 0
    /// before the first.
    pub fn sequence(&self) -> (r: u32)
        ensures
            r == self@.sequence,
    {
        self.sequence
    }

    /// Tells whether the node has left.
    pub fn is_shut_down(&self) -> (r: bool)
        ensures
            r == self@.shut_down,
    {
        self.shut_down
    }

    /// Adds to `out` one transmission of `message` for every peer but
    /// `except`.
    fn forward_all(&self, except: Option<u8>, message: &Message, out: &mut Vec<Action>)
        ensures
            action_views(final(out)@) == action_views(old(out)@) + forwards(
                self@.peers,
                except,
                message@,
            ),
    {
        let entries = self.peers.entries();
        let ghost peers = self@.peers;
        let ghost base = action_views(out@);
        let mut i: usize = 0;
        assert(peers.take(0).filter(is_not_peer(except)) =~= Seq::empty()) by {
            reveal(Seq::filter);
        }
        assert(base + forwards(peers.take(0), except, message@) =~= base);
        while i < entries.len()
            invariant
                i <= entries.len(),
                peers == peer_views(entries@),
                action_views(out@) == base + forwards(peers.take(i as int), except, message@),
            decreases entries.len() - i,
        {
            let p = &entries[i];
            proof {
                let head = peers.take(i as int);
                assert(peers.take(i + 1) =~= head.push(peers[i as int]));
                head.lemma_filter_push(peers[i as int], is_not_peer(except));
                let kept = head.filter(is_not_peer(except));
                assert(kept.push(peers[i as int]).map_values(forward_to(message@)) =~= kept.map_values(
                    forward_to(message@),
                ).push(forward_to(message@)(peers[i as int])));
            }
            let skip = match except {
                Some(x) => x == p.id,
                None => false,
            };
            if !skip {
                let ghost before = out@;
                out.push(Action::Forward { peer: p.id, to: p.address, message: message.clone() });
                assert(action_views(out@) =~= action_views(before).push(
                    forward_to(message@)(peers[i as int]),
                ));
            }
            i += 1;
        }
        assert(peers.take(i as int) =~= peers);
    }

    /// Tells whether the node still accepts a request.
    fn may_accept(&self) -> (r: bool)
        ensures
            r == self@.may_accept(),
    {
        self.peers.count(Direction::Incoming) < self.limit && self.peers.len() <= self.limit
    }

    /// Answers a request to connect.
    fn on_request(&mut self, from_node: u8, nickname: String, sender: Address, now: u64) -> (actions:
        Vec<Action>)
        ensures
            final(self)@ == old(self)@.on_request(from_node, nickname@, sender, now).0,
            action_views(actions@) == old(self)@.on_request(from_node, nickname@, sender, now).1,
    {
        let mut actions: Vec<Action> = Vec::new();
        if self.peers.contains(from_node) {
            let message = Message::ConnectionFail {
                from_node: self.id,
                reason: "already connected".to_owned(),
            };
            actions.push(Action::Reply { to: sender, message });
            assert(action_views(actions@) =~= old(self)@.on_request(
                from_node,
                nickname@,
                sender,
                now,
            ).1);
        } else if !self.may_accept() {
            let message = Message::ConnectionFail {
                from_node: self.id,
                reason: "limit reached".to_owned(),
            };
            actions.push(Action::Reply { to: sender, message });
            assert(action_views(actions@) =~= old(self)@.on_request(
                from_node,
                nickname@,
                sender,
                now,
            ).1);
        } else {
            self.peers.insert(
                PeerInfo {
                    id: from_node,
                    address: sender,
                    nickname,
                    direction: Direction::Incoming,
                    last_seen: now,
                },
            );
            let message = Message::ConnectionAck {
                from_node: self.id,
                nickname: self.nickname.clone(),
            };
            actions.push(Action::Reply { to: sender, message });
            actions.push(Action::PeerConnected { peer: from_node });
            assert(action_views(actions@) =~= old(self)@.on_request(
                from_node,
                nickname@,
                sender,
                now,
            ).1);
        }
        actions
    }

    /// Takes in an acknowledgement.
    fn on_ack(&mut self, from_node: u8, nickname: String, sender: Address, now: u64) -> (actions:
        Vec<Action>)
        ensures
            final(self)@ == old(self)@.on_ack(from_node, nickname@, sender, now).0,
            action_views(actions@) == old(self)@.on_ack(from_node, nickname@, sender, now).1,
    {
        let mut actions: Vec<Action> = Vec::new();
        if self.peers.contains(from_node) {
            self.peers.refresh(from_node, nickname, now);
            assert(action_views(actions@) =~= Seq::empty());
        } else {
            self.peers.insert(
                PeerInfo {
                    id: from_node,
                    address: sender,
                    nickname,
                    direction: Direction::Outgoing,
                    last_seen: now,
                },
            );
            actions.push(Action::PeerConnected { peer: from_node });
            assert(action_views(actions@) =~= seq![ActionView::PeerConnected { peer: from_node }]);
        }
        actions
    }

    /// Processes a chat message, unless it was seen before.
    fn on_chat(&mut self, id: MessageId, from_node: u8, nickname: String, content: String) -> (actions:
        Vec<Action>)
        ensures
            final(self)@ == old(self)@.on_chat(id, from_node, nickname@, content@).0,
            action_views(actions@) == old(self)@.on_chat(id, from_node, nickname@, content@).1,
    {
        let mut actions: Vec<Action> = Vec::new();
        if !self.seen.check_and_insert(id) {
            assert(self.seen@ =~= old(self).seen@);
            assert(action_views(actions@) =~= Seq::empty());
            return actions;
        }
        let relayed = Message::ChatMessage {
            source_node: id.source_node,
            sequence_number: id.sequence_number,
            from_node: self.id,
            nickname: nickname.clone(),
            content: content.clone(),
        };
        actions.push(Action::ChatLine { nickname, content });
        assert(action_views(actions@) =~= seq![
            ActionView::ChatLine { nickname: nickname@, content: content@ },
        ]);
        self.forward_all(Some(from_node), &relayed, &mut actions);
        actions
    }

    /// Processes a leave notification, unless it was seen before.
    fn on_closed(&mut self, id: MessageId, from_node: u8, nickname: String) -> (actions: Vec<Action>)
        ensures
            final(self)@ == old(self)@.on_closed(id, from_node, nickname@).0,
            action_views(actions@) == old(self)@.on_closed(id, from_node, nickname@).1,
    {
        let mut actions: Vec<Action> = Vec::new();
        if !self.seen.check_and_insert(id) {
            assert(self.seen@ =~= old(self).seen@);
            assert(action_views(actions@) =~= Seq::empty());
            return actions;
        }
        let relayed = Message::ConnectionClosed {
            source_node: id.source_node,
            sequence_number: id.sequence_number,
            from_node: self.id,
            nickname: nickname.clone(),
        };
        if self.peers.remove(id.source_node).is_some() {
            actions.push(Action::PeerLeft { nickname });
            assert(action_views(actions@) =~= seq![ActionView::PeerLeft { nickname: nickname@ }]);
        } else {
            assert(action_views(actions@) =~= Seq::empty());
        }
        self.forward_all(Some(from_node), &relayed, &mut actions);
        actions
    }

    /// Handles a message that arrived from `sender` at time `now`, and
    /// returns what is to be done. A request is accepted, or refused with the
    /// reason; an acknowledgement makes or refreshes a peer; a refusal
    /// changes nothing; a flooded message is processed once and passed on.
    pub fn handle_message(&mut self, message: Message, sender: Address, now: u64) -> (actions: Vec<
        Action,
    >)
        ensures
            final(self)@ == old(self)@.handle(message@, sender, now).0,
            action_views(actions@) == old(self)@.handle(message@, sender, now).1,
            final(self)@.wf(),
            // a flooded message that was seen before changes nothing
            message@.id() is Some && old(self)@.seen.contains(message@.id()->0) ==> final(self)@
                == old(self)@ && actions@.len() == 0,
            // nothing goes back to the peer that the message came from
            forall|i: int|
                0 <= i < actions@.len() && (#[trigger] actions@[i])@ is Forward
                    ==> actions@[i]@->Forward_peer != message@.from_node(),
            // the degree bound is kept, but for an acknowledgement that comes too late
            old(self)@.within_bound() && !late_ack(
                old(self)@,
                EventView::Message { message: message@, sender, now },
            ) ==> final(self)@.within_bound(),
    {
        let ghost before = self@;
        let ghost event = EventView::Message { message: message@, sender, now };
        proof {
            use_type_invariant(&self.peers);
            use_type_invariant(&self.roster);
            if before.within_bound() && !late_ack(before, event) {
                lemma_step_keeps_bound(before, event);
            }
        }
        let actions = match message {
            Message::ConnectionRequest { from_node, nickname } => self.on_request(
                from_node,
                nickname,
                sender,
                now,
            ),
            Message::ConnectionAck { from_node, nickname } => self.on_ack(
                from_node,
                nickname,
                sender,
                now,
            ),
            Message::ConnectionFail { .. } => {
                let actions: Vec<Action> = Vec::new();
                assert(action_views(actions@) =~= Seq::empty());
                actions
            },
            Message::ConnectionClosed { source_node, sequence_number, from_node, nickname } => {
                self.on_closed(MessageId { source_node, sequence_number }, from_node, nickname)
            },
            Message::ChatMessage { source_node, sequence_number, from_node, nickname, content } => {
                self.on_chat(
                    MessageId { source_node, sequence_number },
                    from_node,
                    nickname,
                    content,
                )
            },
        };
        proof {
            use_type_invariant(&self.peers);
            use_type_invariant(&self.roster);
            assert forall|i: int|
                0 <= i < actions@.len() && (#[trigger] actions@[i])@ is Forward implies actions@[i]@->Forward_peer
                != message@.from_node() by {
                assert(action_views(actions@)[i] == actions@[i]@);
                lemma_never_back_to_sender(before, event, i);
            }
        }
        actions
    }

    /// Handles a datagram that arrived from `sender` at time `now`. Bytes
    /// that do not decode to a message are dropped: nothing changes and
    /// nothing is to be done.
    pub fn receive(&mut self, bytes: &[u8], sender: Address, now: u64) -> (actions: Vec<Action>)
        ensures
            final(self)@ == old(self)@.receive(bytes@, sender, now).0,
            action_views(actions@) == old(self)@.receive(bytes@, sender, now).1,
            final(self)@.wf(),
    {
        match decode(bytes) {
            Some(message) => self.handle_message(message, sender, now),
            None => {
                proof {
                    use_type_invariant(&self.peers);
                    use_type_invariant(&self.roster);
                }
                let actions: Vec<Action> = Vec::new();
                assert(action_views(actions@) =~= Seq::empty());
                actions
            },
        }
    }

    /// Uses up the next sequence number and returns the identity made of it.
    fn number(&mut self) -> (id: MessageId)
        requires
            old(self)@.can_originate(),
        ensures
            id == old(self)@.next_id(),
            final(self)@ == (NodeView { sequence: id.sequence_number, ..old(self)@ }),
    {
        self.sequence = self.sequence + 1;
        MessageId { source_node: self.id, sequence_number: self.sequence }
    }

    /// Floods `message`, which carries the identity `id` just numbered.
    fn flood_own(&mut self, id: MessageId, message: &Message) -> (actions: Vec<Action>)
        ensures
            final(self)@ == (if old(self)@.seen.contains(id) {
                old(self)@
            } else {
                NodeView { seen: old(self)@.seen.insert(id), ..old(self)@ }
            }),
            action_views(actions@) == (if old(self)@.seen.contains(id) {
                Seq::empty()
            } else {
                forwards(old(self)@.peers, None, message@)
            }),
    {
        let mut actions: Vec<Action> = Vec::new();
        assert(action_views(actions@) =~= Seq::empty());
        if self.seen.check_and_insert(id) {
            self.forward_all(None, message, &mut actions);
            assert(Seq::<ActionView>::empty() + forwards(self@.peers, None, message@) =~= forwards(
                self@.peers,
                None,
                message@,
            ));
        } else {
            assert(self.seen@ =~= old(self).seen@);
        }
        actions
    }

    /// Sends chat content of the user to every peer, under the next sequence
    /// number of this node. The node does not show its own message. Fails,
    /// and changes nothing, once every sequence number has been used.
    pub fn send_chat(&mut self, content: &str) -> (r: Result<Vec<Action>, SendError>)
        ensures
            match r {
                Ok(actions) => {
                    &&& old(self)@.can_originate()
                    &&& final(self)@ == old(self)@.send_chat(content@).0
                    &&& action_views(actions@) == old(self)@.send_chat(content@).1
                },
                Err(SendError::SequenceExhausted) => {
                    &&& !old(self)@.can_originate()
                    &&& final(self)@ == old(self)@
                },
            },
            final(self)@.wf(),
    {
        proof {
            use_type_invariant(&self.peers);
            use_type_invariant(&self.roster);
        }
        if self.sequence == u32::MAX {
            return Err(SendError::SequenceExhausted);
        }
        let id = self.number();
        let message = Message::ChatMessage {
            source_node: self.id,
            sequence_number: id.sequence_number,
            from_node: self.id,
            nickname: self.nickname.clone(),
            content: content.to_owned(),
        };
        let actions = self.flood_own(id, &message);
        proof {
            use_type_invariant(&self.peers);
        }
        Ok(actions)
    }

    /// Leaves the overlay: tells every peer that this node is gone, under
    /// the next sequence number, and shuts down. Where no number is left the
    /// node shuts down without telling.
    pub fn leave(&mut self) -> (actions: Vec<Action>)
        ensures
            final(self)@ == old(self)@.leave().0,
            action_views(actions@) == old(self)@.leave().1,
            final(self)@.wf(),
    {
        proof {
            use_type_invariant(&self.peers);
            use_type_invariant(&self.roster);
        }
        let mut actions: Vec<Action> = Vec::new();
        assert(action_views(actions@) =~= Seq::empty());
        if self.sequence < u32::MAX {
            let id = self.number();
            let message = Message::ConnectionClosed {
                source_node: self.id,
                sequence_number: id.sequence_number,
                from_node: self.id,
                nickname: self.nickname.clone(),
            };
            actions = self.flood_own(id, &message);
        }
        self.shut_down = true;
        let ghost sends = action_views(actions@);
        actions.push(Action::Shutdown);
        assert(action_views(actions@) =~= sends.push(ActionView::Shutdown));
        proof {
            use_type_invariant(&self.peers);
        }
        actions
    }

    /// A copy of the peer table, by ascending id.
    pub fn list_peers(&self) -> (r: Vec<PeerInfo>)
        ensures
            peer_views(r@) == self@.peers,
            ascending(peer_views(r@)),
    {
        proof {
            use_type_invariant(&self.peers);
        }
        self.peers.snapshot()
    }

    /// Handles a line that the user entered. White space around it is
    /// dropped. An empty line does nothing; `\quit` leaves; `\list` shows
    /// the peers; `\help` shows the commands; any other line is chat
    /// content, which fails as [`Self::send_chat`] does.
    pub fn on_input(&mut self, line: &str) -> (r: Result<Vec<Action>, SendError>)
        ensures
            match r {
                Ok(actions) => {
                    &&& command_of(line@) is Chat ==> old(self)@.can_originate()
                    &&& final(self)@ == old(self)@.on_input(line@).0
                    &&& action_views(actions@) == old(self)@.on_input(line@).1
                },
                Err(SendError::SequenceExhausted) => {
                    &&& command_of(line@) is Chat
                    &&& !old(self)@.can_originate()
                    &&& final(self)@ == old(self)@
                },
            },
            final(self)@.wf(),
    {
        proof {
            use_type_invariant(&self.peers);
            use_type_invariant(&self.roster);
        }
        let input = trim(line);
        let mut actions: Vec<Action> = Vec::new();
        assert(action_views(actions@) =~= Seq::empty());
        if input.is_empty() {
            Ok(actions)
        } else if same_text(input, "\\quit") {
            Ok(self.leave())
        } else if same_text(input, "\\list") {
            let peers = self.list_peers();
            actions.push(Action::ShowPeers { peers });
            assert(action_views(actions@) =~= seq![ActionView::ShowPeers { peers: self@.peers }]);
            Ok(actions)
        } else if same_text(input, "\\help") {
            actions.push(Action::ShowHelp);
            assert(action_views(actions@) =~= seq![ActionView::ShowHelp]);
            Ok(actions)
        } else {
            self.send_chat(input)
        }
    }

    /// Takes one event and returns what is to be done. Chat content for
    /// which no sequence number is left is dropped without a trace here; ask
    /// [`Self::send_chat`] or [`Self::on_input`] to be told.
    pub fn step(&mut self, event: Event) -> (actions: Vec<Action>)
        ensures
            final(self)@ == old(self)@.step(event@).0,
            action_views(actions@) == old(self)@.step(event@).1,
            final(self)@.wf(),
    {
        let outcome = match event {
            Event::Message { message, sender, now } => {
                return self.handle_message(message, sender, now);
            },
            Event::Datagram { bytes, sender, now } => {
                return self.receive(bytes.as_slice(), sender, now);
            },
            Event::Leave => {
                return self.leave();
            },
            Event::Chat { content } => self.send_chat(content.as_str()),
            Event::Input { line } => self.on_input(line.as_str()),
        };
        match outcome {
            Ok(actions) => actions,
            Err(_) => {
                let actions: Vec<Action> = Vec::new();
                assert(action_views(actions@) =~= Seq::empty());
                actions
            },
        }
    }

    /// Tells whether a sweep for this reason is to be made now. The first
    /// attempt is always made; the short timer sweeps while the node has no
    /// peer; the long timer while it has fewer than K. None is made at the
    /// degree bound.
    pub fn sweep_due(&self, reason: Sweep) -> (r: bool)
        ensures
            r == self@.sweep_due(reason),
    {
        let total = self.peers.len();
        let may_dial = self.peers.count(Direction::Outgoing) < self.limit && total <= self.limit;
        may_dial && match reason {
            Sweep::Initial => true,
            Sweep::Bootstrap => total == 0,
            Sweep::TopUp => total < self.limit,
        }
    }

    /// The candidates of a sweep, in the order in which they are to be
    /// tried: every node of the roster but this one, shuffled, where the
    /// sweep is due, and none where it is not.
    pub fn sweep(&self, reason: Sweep) -> (order: Vec<u8>)
        ensures
            self@.sweep_due(reason) ==> order@.to_multiset() == candidates(
                self@.roster,
                self@.id,
            ).to_multiset(),
            !self@.sweep_due(reason) ==> order@ == Seq::<u8>::empty(),
    {
        if !self.sweep_due(reason) {
            return Vec::new();
        }
        let mut order = self.roster.others(self.id);
        shuffle(&mut order);
        order
    }

    /// Decides what a sweep does when it comes to `candidate`, by the state
    /// of the node at that moment.
    pub fn dial(&self, candidate: u8) -> (r: DialStep)
        ensures
            r@ == self@.dial(candidate),
    {
        proof {
            use_type_invariant(&self.roster);
        }
        if candidate == self.id {
            return DialStep::Skip;
        }
        let entry = match self.roster.find(candidate) {
            Some(entry) => entry,
            None => {
                return DialStep::Skip;
            },
        };
        proof {
            lemma_entry_of(self@.roster, entry@);
        }
        if self.peers.contains(candidate) {
            return DialStep::Skip;
        }
        let total = self.peers.len();
        if !(self.peers.count(Direction::Outgoing) < self.limit && total <= self.limit) {
            return DialStep::Stop;
        }
        DialStep::Request {
            peer: candidate,
            host: entry.host.clone(),
            port: entry.port,
            message: Message::ConnectionRequest {
                from_node: self.id,
                nickname: self.nickname.clone(),
            },
        }
    }
}

} // verus!
