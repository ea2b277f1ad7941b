//! How a flooded message spreads: a network with the datagrams that are
//! under way in it, where no datagram is lost. The laws say where a chat
//! message and a leave notification have come to once every datagram has
//! arrived, and that this moment does come.

use vstd::prelude::*;
use crate::laws::lemma_forwards_item;
use crate::message::{MessageId, MessageView};
use crate::model::{forward_to, forwards, is_not_peer, ActionView, NodeView};
use crate::peers::{
    has_peer, lemma_without_peer_ascending, lemma_without_peer_at, lemma_without_peer_has, Address,
    Ip, PeerInfoView,
};

verus! {

/// A datagram under way to the node `to`.
pub struct PacketView {
    pub to: u8,
    pub message: MessageView,
}

/// A network and the datagrams under way in it.
pub struct FloodView {
    /// The state of each node, by its id.
    pub nodes: Map<u8, NodeView>,
    pub wire: Seq<PacketView>,
}

/// The arrival of one datagram: which one it is, and the address and the
/// time that the receiver sees.
pub struct DeliveryView {
    pub pick: int,
    pub sender: Address,
    pub now: u64,
}

/// The datagram that an action puts on the wire.
pub open spec fn packet_of(action: ActionView) -> Option<PacketView> {
    match action {
        ActionView::Forward { peer, message, .. } => Some(PacketView { to: peer, message }),
        _ => None,
    }
}

/// The datagrams that a list of actions puts on the wire.
pub open spec fn packets(actions: Seq<ActionView>) -> Seq<PacketView> {
    actions.filter_map(|a: ActionView| packet_of(a))
}

/// The network after one arrival: the datagram leaves the wire, the node it
/// is for handles it, and what that node sends joins the wire. A datagram
/// for a node that is not there is lost.
pub open spec fn deliver(f: FloodView, d: DeliveryView) -> FloodView {
    if 0 <= d.pick < f.wire.len() {
        let packet = f.wire[d.pick];
        let rest = f.wire.remove(d.pick);
        if f.nodes.contains_key(packet.to) {
            let (next, actions) = f.nodes[packet.to].handle(packet.message, d.sender, d.now);
            FloodView { nodes: f.nodes.insert(packet.to, next), wire: rest + packets(actions) }
        } else {
            FloodView { nodes: f.nodes, wire: rest }
        }
    } else {
        f
    }
}

/// The network after a run of arrivals.
pub open spec fn deliver_all(f: FloodView, run: Seq<DeliveryView>) -> FloodView
    decreases run.len(),
{
    if run.len() == 0 {
        f
    } else {
        deliver_all(deliver(f, run.first()), run.drop_first())
    }
}

/// The network just after the node `a` has left: its notifications are on
/// the wire and nothing else is.
pub open spec fn after_leave(nodes: Map<u8, NodeView>, a: u8) -> FloodView
    recommends
        nodes.contains_key(a),
{
    FloodView { nodes: nodes.insert(a, nodes[a].leave().0), wire: packets(nodes[a].leave().1) }
}

/// The network just after the node `a` has sent chat content: its message
/// is on the wire for each of its peers and nothing else is.
pub open spec fn after_chat(nodes: Map<u8, NodeView>, a: u8, content: Seq<char>) -> FloodView
    recommends
        nodes.contains_key(a),
        nodes[a].can_originate(),
{
    FloodView {
        nodes: nodes.insert(a, nodes[a].send_chat(content).0),
        wire: packets(nodes[a].send_chat(content).1),
    }
}

/// Whether a datagram for `q` is on the wire.
pub open spec fn bound_for(wire: Seq<PacketView>, q: u8) -> bool {
    exists|i: int| 0 <= i < wire.len() && wire[i].to == q
}

/// Whether `n` is a node that holds `id` in its cache.
pub open spec fn knows(f: FloodView, n: u8, id: MessageId) -> bool {
    f.nodes.contains_key(n) && f.nodes[n].seen.contains(id)
}

/// Whether `n` is a node that has `q` in its peer table.
pub open spec fn linked(nodes: Map<u8, NodeView>, n: u8, q: u8) -> bool {
    nodes.contains_key(n) && has_peer(nodes[n].peers, q)
}

/// Every node is well formed and is kept under its own id.
pub open spec fn sound(nodes: Map<u8, NodeView>) -> bool {
    forall|n: u8| #[trigger] nodes.contains_key(n) ==> nodes[n].wf() && nodes[n].id == n
}

/// Whether no node of the network holds `id` in its cache.
pub open spec fn fresh(nodes: Map<u8, NodeView>, id: MessageId) -> bool {
    forall|n: u8| #[trigger] nodes.contains_key(n) ==> !nodes[n].seen.contains(id)
}

/// A path of live links: each node on it is in the network and has the next
/// one in its peer table.
pub open spec fn live_path(nodes: Map<u8, NodeView>, path: Seq<u8>) -> bool {
    &&& path.len() > 0
    &&& forall|i: int| 0 <= i < path.len() ==> nodes.contains_key(#[trigger] path[i])
    &&& forall|i: int| 0 <= i < path.len() - 1 ==> has_peer(nodes[path[i]].peers, #[trigger] path[i + 1])
}

/// Whether an arrival is one that the node `b` acts on: a copy of `id`
/// comes to `b`, which has not seen it.
pub open spec fn takes(f: FloodView, d: DeliveryView, b: u8, id: MessageId) -> bool {
    &&& 0 <= d.pick < f.wire.len()
    &&& f.wire[d.pick].to == b
    &&& f.wire[d.pick].message.id() == Some(id)
    &&& f.nodes.contains_key(b)
    &&& !f.nodes[b].seen.contains(id)
}

/// How many arrivals of a run the node `b` acts on.
pub open spec fn taken(f: FloodView, run: Seq<DeliveryView>, b: u8, id: MessageId) -> nat
    decreases run.len(),
{
    if run.len() == 0 {
        0
    } else {
        let here: nat = if takes(f, run.first(), b, id) {
            1
        } else {
            0
        };
        here + taken(deliver(f, run.first()), run.drop_first(), b, id)
    }
}

/// Whether a datagram is a copy of the flooded message `id` of the node `a`,
/// sent on by a node that holds `id` in its cache. `closing` tells the kind:
/// a leave notification, or else a chat message.
pub open spec fn relays(f: FloodView, packet: PacketView, a: u8, id: MessageId, closing: bool) -> bool {
    &&& packet.message.id() == Some(id)
    &&& packet.message is ConnectionClosed <==> closing
    &&& id.source_node == a
    &&& knows(f, packet.message.from_node(), id)
}

/// What holds while the message `id` of the node `a` spreads through a
/// network that started as `start`: the wire holds nothing but copies of it;
/// whoever holds it has passed it to each of its peers, so that the peer
/// holds it too or a copy is under way to it; tables have lost no peer but
/// `a`; and where the message is a leave notification, whoever holds it has
/// `a` no longer in its table.
pub open spec fn spreading(
    f: FloodView,
    start: Map<u8, NodeView>,
    a: u8,
    id: MessageId,
    closing: bool,
) -> bool {
    &&& f.nodes.dom() == start.dom()
    &&& sound(f.nodes)
    &&& knows(f, a, id)
    &&& forall|i: int| 0 <= i < f.wire.len() ==> relays(f, #[trigger] f.wire[i], a, id, closing)
    &&& forall|n: u8, q: u8| #[trigger]
        linked(f.nodes, n, q) && knows(f, n, id) && f.nodes.contains_key(q) ==> knows(f, q, id)
            || bound_for(f.wire, q)
    &&& forall|n: u8, q: u8| #[trigger]
        linked(start, n, q) && q != a ==> linked(f.nodes, n, q)
    &&& closing ==> forall|n: u8| n != a && #[trigger] knows(f, n, id) ==> !has_peer(
        f.nodes[n].peers,
        a,
    )
}

/// A datagram is among those of a list of actions exactly if one of the
/// actions puts it on the wire.
pub proof fn lemma_packets(actions: Seq<ActionView>, packet: PacketView)
    ensures
        packets(actions).contains(packet) <==> exists|i: int|
            0 <= i < actions.len() && packet_of(#[trigger] actions[i]) == Some(packet),
    decreases actions.len(),
{
    let f = |a: ActionView| packet_of(a);
    if actions.len() == 0 {
        assert(packets(actions) =~= Seq::<PacketView>::empty());
    } else {
        let rest = actions.drop_last();
        let last = actions.last();
        lemma_packets(rest, packet);
        let out = packets(actions);
        let inner = packets(rest);
        assert(out == match f(last) {
            Some(p) => inner + seq![p],
            None => inner,
        });
        if out.contains(packet) {
            let k = choose|k: int| 0 <= k < out.len() && out[k] == packet;
            if k < inner.len() {
                assert(inner[k] == packet);
                assert(inner.contains(packet));
                let i = choose|i: int|
                    0 <= i < rest.len() && packet_of(#[trigger] rest[i]) == Some(packet);
                assert(actions[i] == rest[i]);
            } else {
                assert(packet_of(actions[actions.len() - 1]) == Some(packet));
            }
        }
        if exists|i: int| 0 <= i < actions.len() && packet_of(#[trigger] actions[i]) == Some(packet) {
            let i = choose|i: int|
                0 <= i < actions.len() && packet_of(#[trigger] actions[i]) == Some(packet);
            if i < rest.len() {
                assert(rest[i] == actions[i]);
                assert(inner.contains(packet));
                let k = choose|k: int| 0 <= k < inner.len() && inner[k] == packet;
                assert(out[k] == packet);
            } else {
                assert(out[out.len() - 1] == packet);
            }
        }
    }
}

/// A flooded message goes on the wire for each peer but the one left out.
pub proof fn lemma_forwards_reach(
    peers: Seq<PeerInfoView>,
    except: Option<u8>,
    message: MessageView,
    q: u8,
)
    requires
        has_peer(peers, q),
        except != Some(q),
    ensures
        exists|i: int|
            0 <= i < forwards(peers, except, message).len() && packet_of(
                #[trigger] forwards(peers, except, message)[i],
            ) == Some(PacketView { to: q, message }),
{
    let j = choose|j: int| 0 <= j < peers.len() && peers[j].id == q;
    let kept = peers.filter(is_not_peer(except));
    peers.lemma_filter_contains(is_not_peer(except), j);
    let i = choose|i: int| 0 <= i < kept.len() && kept[i] == peers[j];
    assert(forwards(peers, except, message)[i] == forward_to(message)(kept[i]));
}

/// Just after a node has originated a message, the message is spreading.
proof fn lemma_spreading_begins(
    start: Map<u8, NodeView>,
    a: u8,
    message: MessageView,
    f: FloodView,
    closing: bool,
)
    requires
        start.contains_key(a),
        sound(start),
        start[a].can_originate(),
        fresh(start, start[a].next_id()),
        message.id() == Some(start[a].next_id()),
        message.from_node() == a,
        message is ConnectionClosed <==> closing,
        f.nodes.dom() == start.dom(),
        f.wire == packets(forwards(start[a].peers, None, message)),
        f.nodes[a].peers == start[a].peers,
        f.nodes[a].seen.contains(start[a].next_id()),
        f.nodes[a].wf() && f.nodes[a].id == a,
        forall|n: u8| n != a && start.contains_key(n) ==> #[trigger] f.nodes[n] == start[n],
    ensures
        spreading(f, start, a, start[a].next_id(), closing),
{
    let id = start[a].next_id();
    let sends = forwards(start[a].peers, None, message);
    assert forall|i: int| 0 <= i < f.wire.len() implies relays(
        f,
        #[trigger] f.wire[i],
        a,
        id,
        closing,
    ) by {
        let packet = f.wire[i];
        assert(f.wire.contains(packet));
        lemma_packets(sends, packet);
        let k = choose|k: int| 0 <= k < sends.len() && packet_of(#[trigger] sends[k]) == Some(packet);
        lemma_forwards_item(start[a].peers, None, message, k);
    }
    assert forall|n: u8, q: u8| #[trigger]
        linked(f.nodes, n, q) && knows(f, n, id) && f.nodes.contains_key(q) implies knows(f, q, id)
        || bound_for(f.wire, q) by {
        if n == a {
            lemma_forwards_reach(start[a].peers, None, message, q);
            lemma_packets(sends, PacketView { to: q, message });
            let i = choose|i: int|
                0 <= i < f.wire.len() && f.wire[i] == (PacketView { to: q, message });
            assert(f.wire[i].to == q);
        } else {
            assert(start.contains_key(n));
        }
    }
    assert forall|n: u8, q: u8| #[trigger] linked(start, n, q) && q != a implies linked(
        f.nodes,
        n,
        q,
    ) by {}
    if closing {
        assert forall|n: u8| n != a && #[trigger] knows(f, n, id) implies !has_peer(
            f.nodes[n].peers,
            a,
        ) by {
            assert(start.contains_key(n));
        }
    }
    assert(sound(f.nodes)) by {
        assert forall|n: u8| #[trigger] f.nodes.contains_key(n) implies f.nodes[n].wf()
            && f.nodes[n].id == n by {
            assert(start.contains_key(n));
        }
    }
}

/// The datagrams of a list of actions are those of the list without a
/// shutdown at its end.
proof fn lemma_packets_before_shutdown(actions: Seq<ActionView>)
    ensures
        packets(actions.push(ActionView::Shutdown)) == packets(actions),
{
    assert(actions.push(ActionView::Shutdown).drop_last() =~= actions);
}

/// Just after a node has left, its notification is spreading.
pub proof fn lemma_leave_spreads(start: Map<u8, NodeView>, a: u8)
    requires
        start.contains_key(a),
        sound(start),
        start[a].can_originate(),
        fresh(start, start[a].next_id()),
    ensures
        spreading(after_leave(start, a), start, a, start[a].next_id(), true),
{
    let f = after_leave(start, a);
    let message = start[a].own_closed();
    lemma_packets_before_shutdown(forwards(start[a].peers, None, message));
    assert(f.nodes.dom() =~= start.dom());
    lemma_spreading_begins(start, a, message, f, true);
}

/// Just after a node has sent chat content, its message is spreading.
pub proof fn lemma_chat_spreads(start: Map<u8, NodeView>, a: u8, content: Seq<char>)
    requires
        start.contains_key(a),
        sound(start),
        start[a].can_originate(),
        fresh(start, start[a].next_id()),
    ensures
        spreading(after_chat(start, a, content), start, a, start[a].next_id(), false),
{
    let f = after_chat(start, a, content);
    let message = start[a].own_chat(content);
    assert(f.nodes.dom() =~= start.dom());
    lemma_spreading_begins(start, a, message, f, false);
}

/// A datagram that is on the wire before an arrival is on it afterwards,
/// unless it is the one that arrives.
proof fn lemma_still_bound(wire: Seq<PacketView>, pick: int, added: Seq<PacketView>, q: u8)
    requires
        0 <= pick < wire.len(),
        bound_for(wire, q),
        wire[pick].to != q,
    ensures
        bound_for(wire.remove(pick) + added, q),
{
    let i = choose|i: int| 0 <= i < wire.len() && wire[i].to == q;
    let after = wire.remove(pick) + added;
    if i < pick {
        assert(after[i] == wire[i]);
    } else {
        assert(after[i - 1] == wire[i]);
    }
}

/// An arrival that changes no node keeps a message spreading: the
/// datagram is lost, or it comes to a node that holds the message already.
proof fn lemma_spreading_idle(
    f: FloodView,
    g: FloodView,
    start: Map<u8, NodeView>,
    a: u8,
    id: MessageId,
    closing: bool,
    pick: int,
)
    requires
        spreading(f, start, a, id, closing),
        0 <= pick < f.wire.len(),
        g.nodes == f.nodes,
        g.wire == f.wire.remove(pick),
        f.nodes.contains_key(f.wire[pick].to) ==> knows(f, f.wire[pick].to, id),
    ensures
        spreading(g, start, a, id, closing),
{
    assert forall|i: int| 0 <= i < g.wire.len() implies relays(
        g,
        #[trigger] g.wire[i],
        a,
        id,
        closing,
    ) by {
        if i < pick {
            assert(g.wire[i] == f.wire[i]);
        } else {
            assert(g.wire[i] == f.wire[i + 1]);
        }
    }
    assert forall|n: u8, q: u8| #[trigger]
        linked(g.nodes, n, q) && knows(g, n, id) && g.nodes.contains_key(q) implies knows(g, q, id)
        || bound_for(g.wire, q) by {
        assert(linked(f.nodes, n, q));
        if !knows(f, q, id) {
            lemma_still_bound(f.wire, pick, Seq::empty(), q);
            assert(f.wire.remove(pick) + Seq::<PacketView>::empty() =~= f.wire.remove(pick));
        }
    }
    if closing {
        assert forall|n: u8| n != a && #[trigger] knows(g, n, id) implies !has_peer(
            g.nodes[n].peers,
            a,
        ) by {
            assert(knows(f, n, id));
        }
    }
}

/// One arrival keeps a message spreading.
pub proof fn lemma_spreading_step(
    f: FloodView,
    start: Map<u8, NodeView>,
    a: u8,
    id: MessageId,
    closing: bool,
    d: DeliveryView,
)
    requires
        spreading(f, start, a, id, closing),
    ensures
        spreading(deliver(f, d), start, a, id, closing),
{
    let g = deliver(f, d);
    if 0 <= d.pick < f.wire.len() {
        let packet = f.wire[d.pick];
        let to = packet.to;
        let rest = f.wire.remove(d.pick);
        assert(relays(f, packet, a, id, closing));
        let from_node = packet.message.from_node();
        if !f.nodes.contains_key(to) {
            lemma_spreading_idle(f, g, start, a, id, closing, d.pick);
        } else if f.nodes[to].seen.contains(id) {
            assert(packets(Seq::<ActionView>::empty()) =~= Seq::<PacketView>::empty());
            assert(g.nodes =~= f.nodes);
            assert(g.wire =~= rest);
            lemma_spreading_idle(f, g, start, a, id, closing, d.pick);
        } else {
            let node = f.nodes[to];
            let outcome = node.handle(packet.message, d.sender, d.now);
            let next = outcome.0;
            let actions = outcome.1;
            let added = packets(actions);
            let remaining = next.peers;
            let relayed = packet.message.relayed_by(node.id);
            assert(f.nodes.contains_key(to));
            assert(node.wf() && node.id == to);
            assert(to != a);
            lemma_without_peer_ascending(node.peers, a);
            lemma_without_peer_has(node.peers, a, a);
            let sends = forwards(remaining, Some(from_node), relayed);
            let notice = actions.take(actions.len() - sends.len());
            assert(actions =~= notice + sends);
            assert(g.nodes.dom() =~= f.nodes.dom());
            assert(sound(g.nodes)) by {
                assert forall|n: u8| #[trigger] g.nodes.contains_key(n) implies g.nodes[n].wf()
                    && g.nodes[n].id == n by {
                    assert(f.nodes.contains_key(n));
                }
            }
            assert forall|i: int| 0 <= i < g.wire.len() implies relays(
                g,
                #[trigger] g.wire[i],
                a,
                id,
                closing,
            ) by {
                if i < rest.len() {
                    if i < d.pick {
                        assert(g.wire[i] == f.wire[i]);
                        assert(relays(f, f.wire[i], a, id, closing));
                    } else {
                        assert(g.wire[i] == f.wire[i + 1]);
                        assert(relays(f, f.wire[i + 1], a, id, closing));
                    }
                } else {
                    let p = g.wire[i];
                    assert(p == added[i - rest.len()]);
                    assert(added.contains(p));
                    lemma_packets(actions, p);
                    let k = choose|k: int|
                        0 <= k < actions.len() && packet_of(#[trigger] actions[k]) == Some(p);
                    lemma_forwards_item(remaining, Some(from_node), relayed, k - notice.len());
                }
            }
            assert forall|n: u8, q: u8| #[trigger]
                linked(g.nodes, n, q) && knows(g, n, id) && g.nodes.contains_key(q) implies knows(
                g,
                q,
                id,
            ) || bound_for(g.wire, q) by {
                if q == to {
                } else if n == to {
                    if q != from_node {
                        lemma_forwards_reach(remaining, Some(from_node), relayed, q);
                        let k = choose|k: int|
                            0 <= k < sends.len() && packet_of(#[trigger] sends[k]) == Some(
                                PacketView { to: q, message: relayed },
                            );
                        assert(actions[notice.len() + k] == sends[k]);
                        lemma_packets(actions, PacketView { to: q, message: relayed });
                        let i = choose|i: int|
                            0 <= i < added.len() && added[i] == (
                                PacketView { to: q, message: relayed }
                            );
                        assert(g.wire[rest.len() + i] == added[i]);
                    }
                } else {
                    assert(linked(f.nodes, n, q));
                    if !knows(f, q, id) {
                        lemma_still_bound(f.wire, d.pick, added, q);
                    }
                }
            }
            assert forall|n: u8, q: u8| #[trigger] linked(start, n, q) && q != a implies linked(
                g.nodes,
                n,
                q,
            ) by {
                assert(linked(f.nodes, n, q));
                if n == to && closing {
                    lemma_without_peer_has(node.peers, a, q);
                }
            }
            if closing {
                assert forall|n: u8| n != a && #[trigger] knows(g, n, id) implies !has_peer(
                    g.nodes[n].peers,
                    a,
                ) by {
                    if n != to {
                        assert(knows(f, n, id));
                    }
                }
            }
        }
    }
}

/// Every run of arrivals keeps a message spreading.
pub proof fn lemma_spreading_run(
    f: FloodView,
    start: Map<u8, NodeView>,
    a: u8,
    id: MessageId,
    closing: bool,
    run: Seq<DeliveryView>,
)
    requires
        spreading(f, start, a, id, closing),
    ensures
        spreading(deliver_all(f, run), start, a, id, closing),
    decreases run.len(),
{
    if run.len() > 0 {
        lemma_spreading_step(f, start, a, id, closing, run.first());
        lemma_spreading_run(deliver(f, run.first()), start, a, id, closing, run.drop_first());
    }
}

/// Once the wire is empty, a spreading message has come to every node at
/// the end of a path of live links from its origin.
proof fn lemma_spread_along(
    end: FloodView,
    start: Map<u8, NodeView>,
    a: u8,
    id: MessageId,
    closing: bool,
    path: Seq<u8>,
)
    requires
        spreading(end, start, a, id, closing),
        end.wire.len() == 0,
        live_path(start, path),
        path.first() == a,
    ensures
        knows(end, path.last(), id),
    decreases path.len(),
{
    if path.len() > 1 {
        let before = path.drop_last();
        assert(live_path(start, before)) by {
            assert forall|i: int| 0 <= i < before.len() implies start.contains_key(
                #[trigger] before[i],
            ) by {
                assert(before[i] == path[i]);
            }
            assert forall|i: int| 0 <= i < before.len() - 1 implies has_peer(
                start[before[i]].peers,
                #[trigger] before[i + 1],
            ) by {
                assert(before[i] == path[i] && before[i + 1] == path[i + 1]);
            }
        }
        lemma_spread_along(end, start, a, id, closing, before);
        let n = before.last();
        let q = path.last();
        assert(n == path[path.len() - 2] && q == path[path.len() - 2 + 1]);
        assert(start.contains_key(path[path.len() - 1]));
        if q != a {
            assert(linked(start, n, q));
            assert(linked(end.nodes, n, q));
            assert(!bound_for(end.wire, q));
        }
    }
}

/// A node acts on an identity once if it comes to hold it during a run, and
/// never otherwise.
pub proof fn lemma_taken_once(f: FloodView, run: Seq<DeliveryView>, b: u8, id: MessageId)
    ensures
        taken(f, run, b, id) == if !knows(f, b, id) && knows(deliver_all(f, run), b, id) {
            1nat
        } else {
            0nat
        },
        knows(f, b, id) ==> knows(deliver_all(f, run), b, id),
        deliver_all(f, run).nodes.dom() == f.nodes.dom(),
    decreases run.len(),
{
    if run.len() > 0 {
        let d = run.first();
        let g = deliver(f, d);
        assert(g.nodes.dom() =~= f.nodes.dom());
        lemma_taken_once(g, run.drop_first(), b, id);
    }
}

/// Leave propagation. The node `a` leaves a network in which nobody has seen
/// the identity of its notification. Once every datagram has arrived, in
/// whatever order, every node at the end of a path of live links from `a`
/// holds the notification in its cache and has `a` no longer in its peer
/// table; and it has acted on the notification exactly once, however many
/// copies came to it.
pub proof fn lemma_leave_propagates(
    start: Map<u8, NodeView>,
    a: u8,
    run: Seq<DeliveryView>,
    path: Seq<u8>,
)
    requires
        start.contains_key(a),
        sound(start),
        start[a].can_originate(),
        fresh(start, start[a].next_id()),
        live_path(start, path),
        path.first() == a,
        deliver_all(after_leave(start, a), run).wire.len() == 0,
    ensures
        knows(deliver_all(after_leave(start, a), run), path.last(), start[a].next_id()),
        path.last() != a ==> !has_peer(
            deliver_all(after_leave(start, a), run).nodes[path.last()].peers,
            a,
        ),
        path.last() != a ==> taken(after_leave(start, a), run, path.last(), start[a].next_id())
            == 1,
{
    let id = start[a].next_id();
    let end = deliver_all(after_leave(start, a), run);
    lemma_taken_once(after_leave(start, a), run, path.last(), id);
    assert(start.contains_key(path[path.len() - 1]));
    lemma_leave_spreads(start, a);
    lemma_spreading_run(after_leave(start, a), start, a, id, true, run);
    lemma_spread_along(end, start, a, id, true, path);
}

/// Flood broadcast. The node `a` sends chat content into a network in which
/// nobody has seen the identity of its message. Once every datagram has
/// arrived, in whatever order, every node at the end of a path of live links
/// from `a` holds the message in its cache, and it has acted on it, which
/// is to show it and to pass it on, exactly once.
pub proof fn lemma_chat_propagates(
    start: Map<u8, NodeView>,
    a: u8,
    content: Seq<char>,
    run: Seq<DeliveryView>,
    path: Seq<u8>,
)
    requires
        start.contains_key(a),
        sound(start),
        start[a].can_originate(),
        fresh(start, start[a].next_id()),
        live_path(start, path),
        path.first() == a,
        deliver_all(after_chat(start, a, content), run).wire.len() == 0,
    ensures
        knows(deliver_all(after_chat(start, a, content), run), path.last(), start[a].next_id()),
        path.last() != a ==> taken(
            after_chat(start, a, content),
            run,
            path.last(),
            start[a].next_id(),
        ) == 1,
        taken(after_chat(start, a, content), run, a, start[a].next_id()) == 0,
{
    let id = start[a].next_id();
    let end = deliver_all(after_chat(start, a, content), run);
    lemma_taken_once(after_chat(start, a, content), run, path.last(), id);
    lemma_taken_once(after_chat(start, a, content), run, a, id);
    assert(start.contains_key(path[path.len() - 1]));
    lemma_chat_spreads(start, a, content);
    lemma_spreading_run(after_chat(start, a, content), start, a, id, false, run);
    lemma_spread_along(end, start, a, id, false, path);
}

/// What the nodes with an id below `n` may still put on the wire: for each
/// node that has not seen `id`, one datagram for each of its peers, and one
/// more for the delivery that makes it act.
pub open spec fn debt(nodes: Map<u8, NodeView>, id: MessageId, n: nat) -> nat
    decreases n,
{
    if n == 0 {
        0
    } else {
        let k = (n - 1) as u8;
        let here: nat = if nodes.contains_key(k) && !nodes[k].seen.contains(id) {
            nodes[k].peers.len() + 1
        } else {
            0
        };
        debt(nodes, id, (n - 1) as nat) + here
    }
}

/// A bound on the arrivals that are still to come: the datagrams on the wire
/// and those that may yet be sent.
pub open spec fn weight(f: FloodView, id: MessageId) -> nat {
    f.wire.len() + debt(f.nodes, id, 256)
}

/// When one node comes to hold `id` and all others stay as they are, the
/// debt falls by what that node owed.
proof fn lemma_debt_paid(
    before: Map<u8, NodeView>,
    after: Map<u8, NodeView>,
    id: MessageId,
    t: u8,
    n: nat,
)
    requires
        n <= 256,
        before.contains_key(t),
        !before[t].seen.contains(id),
        after.contains_key(t),
        after[t].seen.contains(id),
        forall|k: u8| k != t ==> before.contains_key(k) == after.contains_key(k),
        forall|k: u8| k != t && before.contains_key(k) ==> before[k] == after[k],
    ensures
        debt(after, id, n) == debt(before, id, n) - if t < n {
            before[t].peers.len() + 1
        } else {
            0
        },
    decreases n,
{
    if n > 0 {
        lemma_debt_paid(before, after, id, t, (n - 1) as nat);
    }
}

/// A list of actions puts at most one datagram on the wire for each action.
proof fn lemma_packets_len(actions: Seq<ActionView>)
    ensures
        packets(actions).len() <= actions.len(),
    decreases actions.len(),
{
    if actions.len() > 0 {
        lemma_packets_len(actions.drop_last());
    }
}

/// While a notification spreads, the arrival of the first datagram on the
/// wire lowers the bound on the arrivals still to come.
proof fn lemma_weight_falls(
    f: FloodView,
    start: Map<u8, NodeView>,
    a: u8,
    id: MessageId,
    closing: bool,
    d: DeliveryView,
)
    requires
        spreading(f, start, a, id, closing),
        f.wire.len() > 0,
        d.pick == 0,
    ensures
        weight(deliver(f, d), id) < weight(f, id),
{
    let g = deliver(f, d);
    let packet = f.wire[0];
    let to = packet.to;
    let rest = f.wire.remove(0);
    assert(relays(f, packet, a, id, closing));
    if f.nodes.contains_key(to) && !f.nodes[to].seen.contains(id) {
        let node = f.nodes[to];
        let outcome = node.handle(packet.message, d.sender, d.now);
        let actions = outcome.1;
        let from_node = packet.message.from_node();
        let remaining = outcome.0.peers;
        lemma_without_peer_ascending(node.peers, a);
        lemma_packets_len(actions);
        remaining.lemma_filter_len(is_not_peer(Some(from_node)));
        lemma_without_peer_at(node.peers, a);
        assert(actions.len() <= node.peers.len() + 1);
        lemma_debt_paid(f.nodes, g.nodes, id, to, 256);
    } else if f.nodes.contains_key(to) {
        assert(packets(Seq::<ActionView>::empty()) =~= Seq::<PacketView>::empty());
        assert(g.nodes =~= f.nodes);
    }
}

/// From any moment in the spreading of a message, delivering the datagrams
/// one after the other empties the wire: the flood comes to an end.
pub proof fn lemma_flood_settles(
    f: FloodView,
    start: Map<u8, NodeView>,
    a: u8,
    id: MessageId,
    closing: bool,
) -> (run: Seq<DeliveryView>)
    requires
        spreading(f, start, a, id, closing),
    ensures
        deliver_all(f, run).wire.len() == 0,
    decreases weight(f, id),
{
    if f.wire.len() == 0 {
        Seq::empty()
    } else {
        let d = DeliveryView {
            pick: 0,
            sender: Address { ip: Ip::V4(0), port: 0 },
            now: 0,
        };
        lemma_spreading_step(f, start, a, id, closing, d);
        lemma_weight_falls(f, start, a, id, closing, d);
        let rest = lemma_flood_settles(deliver(f, d), start, a, id, closing);
        let run = seq![d] + rest;
        assert(run.first() == d);
        assert(run.drop_first() =~= rest);
        run
    }
}

/// After a node has left, the datagrams can always be delivered to the last:
/// there is a run of arrivals that empties the wire, so that what
/// [`lemma_leave_propagates`] says of the end does come about.
pub proof fn lemma_leave_completes(start: Map<u8, NodeView>, a: u8) -> (run: Seq<DeliveryView>)
    requires
        start.contains_key(a),
        sound(start),
        start[a].can_originate(),
        fresh(start, start[a].next_id()),
    ensures
        deliver_all(after_leave(start, a), run).wire.len() == 0,
{
    lemma_leave_spreads(start, a);
    lemma_flood_settles(after_leave(start, a), start, a, start[a].next_id(), true)
}

/// After a node has sent chat content, the datagrams can always be delivered
/// to the last, so that what [`lemma_chat_propagates`] says of the end does
/// come about.
pub proof fn lemma_chat_completes(start: Map<u8, NodeView>, a: u8, content: Seq<char>) -> (run: Seq<
    DeliveryView,
>)
    requires
        start.contains_key(a),
        sound(start),
        start[a].can_originate(),
        fresh(start, start[a].next_id()),
    ensures
        deliver_all(after_chat(start, a, content), run).wire.len() == 0,
{
    lemma_chat_spreads(start, a, content);
    lemma_flood_settles(after_chat(start, a, content), start, a, start[a].next_id(), false)
}

} // verus!
