//! Laws of the overlay as a whole: many nodes, and events at any of them in
//! any order.

use vstd::prelude::*;
use crate::laws::{delivers, lemma_seen_after, mints};
use crate::message::MessageId;
use crate::model::{EventView, NodeView};

verus! {

/// An event at one node of a network.
pub struct HopView {
    pub at: u8,
    pub event: EventView,
}

/// The network after an event at one of its nodes. The network is the map
/// from each node's id to its state; an event at an id that it does not hold
/// is lost.
pub open spec fn net_step(net: Map<u8, NodeView>, hop: HopView) -> Map<u8, NodeView> {
    if net.contains_key(hop.at) {
        net.insert(hop.at, net[hop.at].step(hop.event).0)
    } else {
        net
    }
}

/// The network after a run of events.
pub open spec fn net_run(net: Map<u8, NodeView>, hops: Seq<HopView>) -> Map<u8, NodeView>
    decreases hops.len(),
{
    if hops.len() == 0 {
        net
    } else {
        net_run(net_step(net, hops.first()), hops.drop_first())
    }
}

/// Whether the event is a delivery of `id` to a node that has not seen it:
/// the delivery on which the node shows the message and passes it on.
pub open spec fn acts_on(net: Map<u8, NodeView>, hop: HopView, id: MessageId) -> bool {
    net.contains_key(hop.at) && delivers(hop.event, id) && !net[hop.at].seen.contains(id)
}

/// Whether the event makes a node originate `id`.
pub open spec fn originates(net: Map<u8, NodeView>, hop: HopView, id: MessageId) -> bool {
    net.contains_key(hop.at) && mints(net[hop.at], hop.event, id) && !net[hop.at].seen.contains(id)
}

/// How many events of a run are deliveries of `id` that a node acts on.
pub open spec fn acted_on(net: Map<u8, NodeView>, hops: Seq<HopView>, id: MessageId) -> nat
    decreases hops.len(),
{
    if hops.len() == 0 {
        0
    } else {
        let here: nat = if acts_on(net, hops.first(), id) {
            1
        } else {
            0
        };
        here + acted_on(net_step(net, hops.first()), hops.drop_first(), id)
    }
}

/// How many events of a run make a node originate `id`.
pub open spec fn originated(net: Map<u8, NodeView>, hops: Seq<HopView>, id: MessageId) -> nat
    decreases hops.len(),
{
    if hops.len() == 0 {
        0
    } else {
        let here: nat = if originates(net, hops.first(), id) {
            1
        } else {
            0
        };
        here + originated(net_step(net, hops.first()), hops.drop_first(), id)
    }
}

/// How many of the ids below `n` satisfy `f`.
pub open spec fn tally(f: spec_fn(u8) -> bool, n: nat) -> nat
    decreases n,
{
    if n == 0 {
        0
    } else {
        let here: nat = if f((n - 1) as u8) {
            1
        } else {
            0
        };
        tally(f, (n - 1) as nat) + here
    }
}

/// The ids of the nodes of a network.
pub open spec fn is_node(net: Map<u8, NodeView>) -> spec_fn(u8) -> bool {
    |k: u8| net.contains_key(k)
}

/// The ids of the nodes whose cache does not hold `id`.
pub open spec fn is_unseen_at(net: Map<u8, NodeView>, id: MessageId) -> spec_fn(u8) -> bool {
    |k: u8| net.contains_key(k) && !net[k].seen.contains(id)
}

/// The number M of nodes in a network.
pub open spec fn size(net: Map<u8, NodeView>) -> nat {
    tally(is_node(net), 256)
}

/// The number of nodes whose cache does not hold `id`.
pub open spec fn unseen(net: Map<u8, NodeView>, id: MessageId) -> nat {
    tally(is_unseen_at(net, id), 256)
}

/// A property that holds of fewer ids is tallied lower.
pub proof fn lemma_tally_le(f: spec_fn(u8) -> bool, g: spec_fn(u8) -> bool, n: nat)
    requires
        n <= 256,
        forall|k: u8| #![trigger f(k)] #![trigger g(k)] k < n && f(k) ==> g(k),
    ensures
        tally(f, n) <= tally(g, n),
    decreases n,
{
    if n > 0 {
        lemma_tally_le(f, g, (n - 1) as nat);
    }
}

/// A property that is lost at one id and kept as it is at all others is
/// tallied one lower.
pub proof fn lemma_tally_drop(f: spec_fn(u8) -> bool, g: spec_fn(u8) -> bool, a: u8, n: nat)
    requires
        n <= 256,
        f(a),
        !g(a),
        forall|k: u8| #![trigger f(k)] #![trigger g(k)] k < n && k != a ==> f(k) == g(k),
    ensures
        tally(g, n) == tally(f, n) - if a < n {
            1int
        } else {
            0int
        },
    decreases n,
{
    if n > 0 {
        lemma_tally_drop(f, g, a, (n - 1) as nat);
    }
}

/// One event lowers the number of nodes that have not seen `id` by one if a
/// node acts on a delivery of `id` or originates it, and never raises it.
pub proof fn lemma_unseen_after(net: Map<u8, NodeView>, hop: HopView, id: MessageId)
    ensures
        unseen(net_step(net, hop), id) == unseen(net, id) - if acts_on(net, hop, id) || originates(
            net,
            hop,
            id,
        ) {
            1int
        } else {
            0int
        },
        size(net_step(net, hop)) == size(net),
{
    let next = net_step(net, hop);
    lemma_tally_le(is_node(net), is_node(next), 256);
    lemma_tally_le(is_node(next), is_node(net), 256);
    if net.contains_key(hop.at) {
        lemma_seen_after(net[hop.at], hop.event, id);
    }
    if acts_on(net, hop, id) || originates(net, hop, id) {
        lemma_tally_drop(is_unseen_at(net, id), is_unseen_at(next, id), hop.at, 256);
    } else {
        lemma_tally_le(is_unseen_at(net, id), is_unseen_at(next, id), 256);
        lemma_tally_le(is_unseen_at(next, id), is_unseen_at(net, id), 256);
    }
}

/// Over a run of events, in any order and at any nodes, an identity is
/// acted on or originated at most once for each node that had not seen it.
pub proof fn lemma_once_per_node(net: Map<u8, NodeView>, hops: Seq<HopView>, id: MessageId)
    ensures
        acted_on(net, hops, id) + originated(net, hops, id) + unseen(net_run(net, hops), id)
            == unseen(net, id),
        size(net_run(net, hops)) == size(net),
    decreases hops.len(),
{
    if hops.len() > 0 {
        lemma_unseen_after(net, hops.first(), id);
        lemma_once_per_node(net_step(net, hops.first()), hops.drop_first(), id);
    }
}

/// Flood termination. In a network of M nodes, once a node holds a message
/// of its own in its cache, at most M−1 deliveries of that message are acted
/// on, whatever is delivered, however often and in whatever order: one for
/// each other node. Every further delivery is dropped and sends nothing.
pub proof fn lemma_flood_terminates(
    net: Map<u8, NodeView>,
    origin: u8,
    hops: Seq<HopView>,
    id: MessageId,
)
    requires
        net.contains_key(origin),
        net[origin].seen.contains(id),
    ensures
        acted_on(net, hops, id) <= size(net) - 1,
{
    lemma_once_per_node(net, hops, id);
    let without = |k: u8| net.contains_key(k) && k != origin;
    lemma_tally_le(is_unseen_at(net, id), without, 256);
    lemma_tally_drop(is_node(net), without, origin, 256);
}

} // verus!
