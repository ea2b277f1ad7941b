//! Laws of a single node: what holds of every state that events can lead
//! to.

use vstd::prelude::*;
use crate::message::{MessageId, MessageView};
use crate::model::{command_of, forwards, is_not_peer, ActionView, EventView, NodeView};
use crate::peers::{
    has_peer, lemma_count_total, lemma_refreshed_count, lemma_refreshed_has, lemma_refreshed_ids,
    lemma_with_peer_ascending, lemma_with_peer_count, lemma_with_peer_has,
    lemma_without_peer_ascending, lemma_without_peer_count, lemma_without_peer_has, Address,
    Direction, PeerInfoView,
};
use crate::roster::{distinct_ids, RosterEntryView};
use crate::wire::decoded;

verus! {

/// The message that an event delivers, if it delivers one.
pub open spec fn arriving(event: EventView) -> Option<MessageView> {
    match event {
        EventView::Message { message, .. } => Some(message),
        EventView::Datagram { bytes, .. } => decoded(bytes),
        _ => None,
    }
}

/// Whether an event delivers a flooded message with the identity `id`.
pub open spec fn delivers(event: EventView, id: MessageId) -> bool {
    match arriving(event) {
        Some(message) => message.id() == Some(id),
        None => false,
    }
}

/// Whether an event makes the node in state `s` originate a message with
/// the identity `id`.
pub open spec fn mints(s: NodeView, event: EventView, id: MessageId) -> bool {
    &&& s.can_originate()
    &&& s.next_id() == id
    &&& match event {
        EventView::Chat { .. } => true,
        EventView::Leave => true,
        EventView::Input { line } => command_of(line) is Chat || command_of(line) is Quit,
        _ => false,
    }
}

/// Whether a run of events delivers the identity `id` at least once.
pub open spec fn delivered(events: Seq<EventView>, id: MessageId) -> bool {
    exists|i: int| 0 <= i < events.len() && delivers(events[i], id)
}

/// How often, in a run of events from state `s`, a delivery of `id` is
/// acted on: the identity arrives and the cache does not hold it yet.
pub open spec fn processed(s: NodeView, events: Seq<EventView>, id: MessageId) -> nat
    decreases events.len(),
{
    if events.len() == 0 {
        0
    } else {
        let here: nat = if delivers(events.first(), id) && !s.seen.contains(id) {
            1
        } else {
            0
        };
        here + processed(s.step(events.first()).0, events.drop_first(), id)
    }
}

/// How often, in a run of events from state `s`, the node itself gives `id`
/// to a message of its own while the cache does not hold it yet.
pub open spec fn minted(s: NodeView, events: Seq<EventView>, id: MessageId) -> nat
    decreases events.len(),
{
    if events.len() == 0 {
        0
    } else {
        let here: nat = if mints(s, events.first(), id) && !s.seen.contains(id) {
            1
        } else {
            0
        };
        here + minted(s.step(events.first()).0, events.drop_first(), id)
    }
}

/// A flooded message whose identity is in the cache is dropped: the state
/// stays as it is and nothing is to be done.
pub proof fn lemma_duplicate_dropped(s: NodeView, event: EventView, id: MessageId)
    requires
        delivers(event, id),
        s.seen.contains(id),
    ensures
        s.step(event) == (s, Seq::<ActionView>::empty()),
{
}

/// An identity is in the cache after an event exactly if it was there
/// before, or the event delivered it, or the node gave it to a message of
/// its own. Nothing ever leaves the cache.
pub proof fn lemma_seen_after(s: NodeView, event: EventView, id: MessageId)
    ensures
        s.step(event).0.seen.contains(id) <==> s.seen.contains(id) || delivers(event, id) || mints(
            s,
            event,
            id,
        ),
{
}

/// Dedup idempotence. However often an identity is delivered, and whatever
/// else happens in between, it enters the cache at most once, and only a
/// delivery at which it enters is acted on; every other delivery is dropped
/// whole. An identity that the cache does not hold and that is delivered at
/// least once is acted on exactly once, unless the node gave that very
/// identity to a message of its own before.
pub proof fn lemma_processed_once(s: NodeView, events: Seq<EventView>, id: MessageId)
    ensures
        processed(s, events, id) + minted(s, events, id) <= 1,
        s.seen.contains(id) ==> processed(s, events, id) + minted(s, events, id) == 0,
        !s.seen.contains(id) && delivered(events, id) ==> processed(s, events, id) + minted(
            s,
            events,
            id,
        ) == 1,
        s.run(events).seen.contains(id) <==> s.seen.contains(id) || processed(s, events, id)
            + minted(s, events, id) == 1,
    decreases events.len(),
{
    if events.len() > 0 {
        let next = s.step(events.first()).0;
        let rest = events.drop_first();
        lemma_seen_after(s, events.first(), id);
        lemma_processed_once(next, rest, id);
        if delivered(events, id) {
            let i = choose|i: int| 0 <= i < events.len() && delivers(events[i], id);
            if i > 0 {
                assert(rest[i - 1] == events[i]);
                assert(delivered(rest, id));
            }
        }
    }
}

/// Every state that an event leads to is well formed.
pub proof fn lemma_step_wf(s: NodeView, event: EventView)
    requires
        s.wf(),
    ensures
        s.step(event).0.wf(),
{
    match arriving(event) {
        Some(MessageView::ConnectionRequest { from_node, nickname }) => {
            let sender = event_sender(event);
            let peer = PeerInfoView {
                id: from_node,
                address: sender,
                nickname,
                direction: Direction::Incoming,
                last_seen: event_time(event),
            };
            lemma_with_peer_ascending(s.peers, peer);
        },
        Some(MessageView::ConnectionAck { from_node, nickname }) => {
            let sender = event_sender(event);
            let peer = PeerInfoView {
                id: from_node,
                address: sender,
                nickname,
                direction: Direction::Outgoing,
                last_seen: event_time(event),
            };
            lemma_with_peer_ascending(s.peers, peer);
            lemma_refreshed_ids(s.peers, from_node, nickname, event_time(event));
        },
        Some(MessageView::ConnectionClosed { source_node, .. }) => {
            lemma_without_peer_ascending(s.peers, source_node);
        },
        _ => {},
    }
}

/// The address from which an arriving event came.
pub open spec fn event_sender(event: EventView) -> Address
    recommends
        arriving(event) is Some,
{
    match event {
        EventView::Message { sender, .. } => sender,
        EventView::Datagram { sender, .. } => sender,
        _ => arbitrary(),
    }
}

/// The time at which an arriving event came.
pub open spec fn event_time(event: EventView) -> u64
    recommends
        arriving(event) is Some,
{
    match event {
        EventView::Message { now, .. } => now,
        EventView::Datagram { now, .. } => now,
        _ => arbitrary(),
    }
}

/// An acknowledgement that comes too late: its sender is no peer yet, and
/// the node has reached the bound at which it stops dialling. It is taken
/// in all the same.
pub open spec fn late_ack(s: NodeView, event: EventView) -> bool {
    match arriving(event) {
        Some(MessageView::ConnectionAck { from_node, .. }) => !has_peer(s.peers, from_node)
            && !s.may_dial(),
        _ => false,
    }
}

/// Whether no acknowledgement comes too late in a run of events from `s`.
pub open spec fn acks_in_time(s: NodeView, events: Seq<EventView>) -> bool
    decreases events.len(),
{
    events.len() == 0 || (!late_ack(s, events.first()) && acks_in_time(
        s.step(events.first()).0,
        events.drop_first(),
    ))
}

/// A node that has just started is well formed and within the degree bound.
pub proof fn lemma_initial_within_bound(
    id: u8,
    nickname: Seq<char>,
    roster: Seq<RosterEntryView>,
    limit: usize,
)
    requires
        distinct_ids(roster),
    ensures
        NodeView::initial(id, nickname, roster, limit).wf(),
        NodeView::initial(id, nickname, roster, limit).within_bound(),
{
    lemma_count_total(Seq::<PeerInfoView>::empty());
}

/// One event keeps a node within the degree bound, unless it is an
/// acknowledgement that comes too late.
pub proof fn lemma_step_keeps_bound(s: NodeView, event: EventView)
    requires
        s.wf(),
        s.within_bound(),
        !late_ack(s, event),
    ensures
        s.step(event).0.within_bound(),
{
    match arriving(event) {
        Some(MessageView::ConnectionRequest { from_node, nickname }) => {
            let peer = PeerInfoView {
                id: from_node,
                address: event_sender(event),
                nickname,
                direction: Direction::Incoming,
                last_seen: event_time(event),
            };
            if !has_peer(s.peers, from_node) {
                lemma_with_peer_ascending(s.peers, peer);
                lemma_with_peer_count(s.peers, peer, Direction::Incoming);
                lemma_with_peer_count(s.peers, peer, Direction::Outgoing);
            }
        },
        Some(MessageView::ConnectionAck { from_node, nickname }) => {
            let peer = PeerInfoView {
                id: from_node,
                address: event_sender(event),
                nickname,
                direction: Direction::Outgoing,
                last_seen: event_time(event),
            };
            if has_peer(s.peers, from_node) {
                lemma_refreshed_ids(s.peers, from_node, nickname, event_time(event));
                lemma_refreshed_count(
                    s.peers,
                    from_node,
                    nickname,
                    event_time(event),
                    Direction::Incoming,
                );
                lemma_refreshed_count(
                    s.peers,
                    from_node,
                    nickname,
                    event_time(event),
                    Direction::Outgoing,
                );
            } else {
                lemma_with_peer_ascending(s.peers, peer);
                lemma_with_peer_count(s.peers, peer, Direction::Incoming);
                lemma_with_peer_count(s.peers, peer, Direction::Outgoing);
            }
        },
        Some(MessageView::ConnectionClosed { source_node, .. }) => {
            lemma_without_peer_ascending(s.peers, source_node);
            lemma_without_peer_count(s.peers, source_node, Direction::Incoming);
            lemma_without_peer_count(s.peers, source_node, Direction::Outgoing);
        },
        _ => {},
    }
}

/// An acknowledgement that answers a request before anything else happens
/// does not come too late: a sweep asks for a request only while the node may
/// dial, and only of a node that is no peer yet.
pub proof fn lemma_prompt_ack_in_time(
    s: NodeView,
    candidate: u8,
    nickname: Seq<char>,
    sender: Address,
    now: u64,
)
    requires
        s.wf(),
        s.within_bound(),
        s.dial(candidate) is Request,
    ensures
        !has_peer(s.peers, candidate),
        s.may_dial(),
        s.handle(
            MessageView::ConnectionAck { from_node: candidate, nickname },
            sender,
            now,
        ).0.within_bound(),
{
    let event = EventView::Message {
        message: MessageView::ConnectionAck { from_node: candidate, nickname },
        sender,
        now,
    };
    lemma_step_keeps_bound(s, event);
}

/// An acknowledgement that comes too late does take the node over the
/// degree bound.
pub proof fn lemma_late_ack_exceeds_bound(s: NodeView, event: EventView)
    requires
        s.wf(),
        s.within_bound(),
        late_ack(s, event),
    ensures
        !s.step(event).0.within_bound(),
{
    match arriving(event) {
        Some(MessageView::ConnectionAck { from_node, nickname }) => {
            let peer = PeerInfoView {
                id: from_node,
                address: event_sender(event),
                nickname,
                direction: Direction::Outgoing,
                last_seen: event_time(event),
            };
            lemma_with_peer_ascending(s.peers, peer);
            lemma_with_peer_count(s.peers, peer, Direction::Outgoing);
        },
        _ => {},
    }
}

/// Degree bound. A node that is within the bound stays within it through
/// every run of events in which no acknowledgement comes too late: it has
/// at most K outgoing peers, at most K incoming peers, and at most K+1 in
/// all.
pub proof fn lemma_degree_bound(s: NodeView, events: Seq<EventView>)
    requires
        s.wf(),
        s.within_bound(),
        acks_in_time(s, events),
    ensures
        s.run(events).wf(),
        s.run(events).within_bound(),
    decreases events.len(),
{
    if events.len() > 0 {
        lemma_step_wf(s, events.first());
        lemma_step_keeps_bound(s, events.first());
        lemma_degree_bound(s.step(events.first()).0, events.drop_first());
    }
}

/// What the transmissions of a flooded message are: each goes to a peer of
/// the table, at that peer's address, carries the message, and none goes to
/// the peer left out.
pub proof fn lemma_forwards_item(
    peers: Seq<PeerInfoView>,
    except: Option<u8>,
    message: MessageView,
    i: int,
)
    requires
        0 <= i < forwards(peers, except, message).len(),
    ensures
        forwards(peers, except, message)[i] is Forward,
        forwards(peers, except, message)[i]->Forward_message == message,
        except != Some(forwards(peers, except, message)[i]->Forward_peer),
        exists|j: int|
            0 <= j < peers.len() && peers[j].id == forwards(
                peers,
                except,
                message,
            )[i]->Forward_peer && peers[j].address == forwards(
                peers,
                except,
                message,
            )[i]->Forward_to,
{
    let kept = peers.filter(is_not_peer(except));
    peers.lemma_filter_pred(is_not_peer(except), i);
    assert(kept.contains(kept[i]));
    peers.lemma_filter_contains_rev(is_not_peer(except), kept[i]);
    let j = choose|j: int| 0 <= j < peers.len() && peers[j] == kept[i];
    assert(peers[j].id == kept[i].id);
}

/// A delivery of a flooded message asks for at most one transmission for
/// each peer, and one notice.
pub proof fn lemma_transmissions_bounded(s: NodeView, event: EventView)
    requires
        s.wf(),
        arriving(event) is Some,
        arriving(event)->0.id() is Some,
    ensures
        s.step(event).1.len() <= s.peers.len() + 1,
{
    let message = arriving(event)->0;
    let relayed = message.relayed_by(s.id);
    let except = Some(message.from_node());
    s.peers.lemma_filter_len(is_not_peer(except));
    match message {
        MessageView::ConnectionClosed { source_node, .. } => {
            lemma_without_peer_ascending(s.peers, source_node);
            let remaining = s.step(event).0.peers;
            remaining.lemma_filter_len(is_not_peer(except));
        },
        _ => {},
    }
}

/// No self-loop forwarding. Whatever a node sends on when a message
/// arrives, it sends none of it to the peer that the message names as the
/// sender of the hop; each transmission goes to a peer of the table as it is
/// after the event, keeps the identity of the message, and names this node
/// as the sender of the next hop.
pub proof fn lemma_never_back_to_sender(s: NodeView, event: EventView, i: int)
    requires
        s.wf(),
        arriving(event) is Some,
        0 <= i < s.step(event).1.len(),
        s.step(event).1[i] is Forward,
    ensures
        s.step(event).1[i]->Forward_peer != arriving(event)->0.from_node(),
        has_peer(s.step(event).0.peers, s.step(event).1[i]->Forward_peer),
        s.step(event).1[i]->Forward_message == arriving(event)->0.relayed_by(s.id),
        s.step(event).1[i]->Forward_message.id() == arriving(event)->0.id(),
        s.step(event).1[i]->Forward_message.from_node() == s.id,
{
    let message = arriving(event)->0;
    let from_node = message.from_node();
    let relayed = message.relayed_by(s.id);
    match message {
        MessageView::ChatMessage { .. } => {
            lemma_forwards_item(s.peers, Some(from_node), relayed, i - 1);
        },
        MessageView::ConnectionClosed { source_node, .. } => {
            let remaining = s.step(event).0.peers;
            if has_peer(s.peers, source_node) {
                lemma_forwards_item(remaining, Some(from_node), relayed, i - 1);
            } else {
                lemma_forwards_item(remaining, Some(from_node), relayed, i);
            }
        },
        _ => {},
    }
}

/// The life of a table entry. A node becomes a peer only by a handshake: its
/// request is accepted, or its acknowledgement arrives. A peer leaves the
/// table only when a leave notification with its id as origin arrives that
/// the cache does not hold yet. No other event touches the set of peers.
pub proof fn lemma_peers_come_and_go(s: NodeView, event: EventView, q: u8)
    requires
        s.wf(),
    ensures
        !has_peer(s.peers, q) && has_peer(s.step(event).0.peers, q) ==> match arriving(event) {
            Some(MessageView::ConnectionRequest { from_node, .. }) => from_node == q
                && s.may_accept(),
            Some(MessageView::ConnectionAck { from_node, .. }) => from_node == q,
            _ => false,
        },
        has_peer(s.peers, q) && !has_peer(s.step(event).0.peers, q) ==> match arriving(event) {
            Some(MessageView::ConnectionClosed { source_node, sequence_number, .. }) => {
                source_node == q && !s.seen.contains(MessageId { source_node, sequence_number })
            },
            _ => false,
        },
{
    match arriving(event) {
        Some(MessageView::ConnectionRequest { from_node, nickname }) => {
            let peer = PeerInfoView {
                id: from_node,
                address: event_sender(event),
                nickname,
                direction: Direction::Incoming,
                last_seen: event_time(event),
            };
            lemma_with_peer_has(s.peers, peer, q);
        },
        Some(MessageView::ConnectionAck { from_node, nickname }) => {
            let peer = PeerInfoView {
                id: from_node,
                address: event_sender(event),
                nickname,
                direction: Direction::Outgoing,
                last_seen: event_time(event),
            };
            lemma_with_peer_has(s.peers, peer, q);
            lemma_refreshed_has(s.peers, from_node, nickname, event_time(event), q);
        },
        Some(MessageView::ConnectionClosed { source_node, .. }) => {
            lemma_without_peer_has(s.peers, source_node, q);
        },
        _ => {},
    }
}

/// Whether an event makes the node in state `s` number a message of its
/// own.
pub open spec fn originating(s: NodeView, event: EventView) -> bool {
    mints(s, event, s.next_id())
}

/// How many events of a run make the node number a message of its own.
pub open spec fn originations(s: NodeView, events: Seq<EventView>) -> nat
    decreases events.len(),
{
    if events.len() == 0 {
        0
    } else {
        let here: nat = if originating(s, events.first()) {
            1
        } else {
            0
        };
        here + originations(s.step(events.first()).0, events.drop_first())
    }
}

/// The sequence counter goes up by one for each chat message and each leave
/// notification that the node originates, and by nothing else; so no number
/// is given twice.
pub proof fn lemma_sequence_counts(s: NodeView, events: Seq<EventView>)
    ensures
        s.run(events).sequence == s.sequence + originations(s, events),
    decreases events.len(),
{
    if events.len() > 0 {
        lemma_sequence_counts(s.step(events.first()).0, events.drop_first());
    }
}

} // verus!
