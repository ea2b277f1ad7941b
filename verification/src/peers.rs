//! The peer table: who this node is connected to, in which direction, under
//! what nickname, and when last heard from.

use vstd::prelude::*;

verus! {

/// An internet address without its port.
#[derive(Clone, Copy, PartialEq, Eq, Structural, Debug, Hash)]
pub enum Ip {
    /// The four octets of an IPv4 address, first octet in the high bits.
    V4(u32),
    /// The sixteen octets of an IPv6 address, first octet in the high bits.
    V6(u128),
}

/// Where the datagrams for a node go: a resolved address, never a host name.
#[derive(Clone, Copy, PartialEq, Eq, Structural, Debug, Hash)]
pub struct Address {
    pub ip: Ip,
    pub port: u16,
}

/// Which side opened a connection.
#[derive(Clone, Copy, PartialEq, Eq, Structural, Debug, Hash)]
pub enum Direction {
    /// This node sent the request and the peer acknowledged it.
    Outgoing,
    /// The peer sent the request and this node accepted it.
    Incoming,
}

/// What a node knows of one connected peer.
#[derive(Debug, PartialEq, Eq)]
pub struct PeerInfo {
    pub id: u8,
    pub address: Address,
    pub nickname: String,
    pub direction: Direction,
    /// The time of the handshake or of the latest acknowledgement, on the
    /// clock of the caller.
    pub last_seen: u64,
}

/// A [`PeerInfo`] with its nickname as a sequence of characters.
pub struct PeerInfoView {
    pub id: u8,
    pub address: Address,
    pub nickname: Seq<char>,
    pub direction: Direction,
    pub last_seen: u64,
}

impl View for PeerInfo {
    type V = PeerInfoView;

    open spec fn view(&self) -> PeerInfoView {
        PeerInfoView {
            id: self.id,
            address: self.address,
            nickname: self.nickname@,
            direction: self.direction,
            last_seen: self.last_seen,
        }
    }
}

impl Clone for PeerInfo {
    fn clone(&self) -> (r: Self)
        ensures
            r == *self,
    {
        PeerInfo {
            id: self.id,
            address: self.address,
            nickname: self.nickname.clone(),
            direction: self.direction,
            last_seen: self.last_seen,
        }
    }
}

/// The peers of a table are listed by ascending id, so no id occurs twice.
pub open spec fn ascending(s: Seq<PeerInfoView>) -> bool {
    forall|i: int, j: int| 0 <= i < j < s.len() ==> s[i].id < s[j].id
}

/// Whether the table holds a peer with this id.
pub open spec fn has_peer(s: Seq<PeerInfoView>, id: u8) -> bool {
    exists|i: int| 0 <= i < s.len() && s[i].id == id
}

/// The peers with an id below `id`.
pub open spec fn is_below(id: u8) -> spec_fn(PeerInfoView) -> bool {
    |p: PeerInfoView| p.id < id
}

/// The peers with an id above `id`.
pub open spec fn is_above(id: u8) -> spec_fn(PeerInfoView) -> bool {
    |p: PeerInfoView| p.id > id
}

/// The peers with another id than `id`.
pub open spec fn is_other(id: u8) -> spec_fn(PeerInfoView) -> bool {
    |p: PeerInfoView| p.id != id
}

/// The peers connected in `direction`.
pub open spec fn is_towards(direction: Direction) -> spec_fn(PeerInfoView) -> bool {
    |p: PeerInfoView| p.direction == direction
}

/// The number of peers in one direction.
pub open spec fn count_towards(s: Seq<PeerInfoView>, direction: Direction) -> nat {
    s.filter(is_towards(direction)).len()
}

/// The table with `p` in it, in place of any peer that had its id.
pub open spec fn with_peer(s: Seq<PeerInfoView>, p: PeerInfoView) -> Seq<PeerInfoView> {
    s.filter(is_below(p.id)).push(p) + s.filter(is_above(p.id))
}

/// The table without the peer `id`.
pub open spec fn without_peer(s: Seq<PeerInfoView>, id: u8) -> Seq<PeerInfoView> {
    s.filter(is_other(id))
}

/// The peer `id` with a new nickname and time; any other peer as it is.
pub open spec fn refresh_one(id: u8, nickname: Seq<char>, now: u64) -> spec_fn(
    PeerInfoView,
) -> PeerInfoView {
    |p: PeerInfoView|
        if p.id == id {
            PeerInfoView { nickname, last_seen: now, ..p }
        } else {
            p
        }
}

/// The table after the peer `id` was heard from at `now` under `nickname`.
pub open spec fn refreshed(s: Seq<PeerInfoView>, id: u8, nickname: Seq<char>, now: u64) -> Seq<
    PeerInfoView,
> {
    s.map_values(refresh_one(id, nickname, now))
}

/// A filter keeps a sequence whose items all pass it.
pub proof fn lemma_filter_keeps_all<A>(s: Seq<A>, pred: spec_fn(A) -> bool)
    requires
        forall|i: int| 0 <= i < s.len() ==> pred(#[trigger] s[i]),
    ensures
        s.filter(pred) == s,
    decreases s.len(),
{
    reveal(Seq::filter);
    if s.len() > 0 {
        lemma_filter_keeps_all(s.drop_last(), pred);
        assert(s.drop_last().push(s.last()) =~= s);
    }
}

/// A filter empties a sequence none of whose items pass it.
pub proof fn lemma_filter_drops_all<A>(s: Seq<A>, pred: spec_fn(A) -> bool)
    requires
        forall|i: int| 0 <= i < s.len() ==> !pred(#[trigger] s[i]),
    ensures
        s.filter(pred) == Seq::<A>::empty(),
    decreases s.len(),
{
    reveal(Seq::filter);
    if s.len() > 0 {
        lemma_filter_drops_all(s.drop_last(), pred);
    }
}

/// A filter that all items before `k` pass, the item at `k` may or may not,
/// and all items behind it pass too, at most takes out the item at `k`.
proof fn lemma_filter_around<A>(s: Seq<A>, pred: spec_fn(A) -> bool, k: int)
    requires
        0 <= k < s.len(),
        forall|i: int| 0 <= i < s.len() && i != k ==> pred(#[trigger] s[i]),
    ensures
        s.filter(pred) == if pred(s[k]) {
            s
        } else {
            s.remove(k)
        },
{
    let head = s.take(k);
    let mid = seq![s[k]];
    let tail = s.skip(k + 1);
    assert(s =~= head + mid + tail);
    Seq::filter_distributes_over_add(head + mid, tail, pred);
    Seq::filter_distributes_over_add(head, mid, pred);
    lemma_filter_keeps_all(head, pred);
    lemma_filter_keeps_all(tail, pred);
    if pred(s[k]) {
        lemma_filter_keeps_all(mid, pred);
    } else {
        lemma_filter_drops_all(mid, pred);
        assert(head + Seq::<A>::empty() + tail =~= s.remove(k));
    }
}

/// In an ascending table the peers below an id are a prefix, those above it
/// are a suffix, and the id itself can only stand between the two.
pub proof fn lemma_split_at(s: Seq<PeerInfoView>, id: u8, k: int)
    requires
        ascending(s),
        0 <= k <= s.len(),
        forall|i: int| 0 <= i < k ==> s[i].id < id,
        forall|i: int| k <= i < s.len() ==> s[i].id >= id,
    ensures
        s.filter(is_below(id)) == s.take(k),
        has_peer(s, id) <==> k < s.len() && s[k].id == id,
        has_peer(s, id) ==> s.filter(is_above(id)) == s.skip(k + 1) && s.filter(is_other(id))
            == s.remove(k),
        !has_peer(s, id) ==> s.filter(is_above(id)) == s.skip(k) && s.filter(is_other(id)) == s,
{
    let head = s.take(k);
    let tail = s.skip(k);
    assert(s =~= head + tail);
    Seq::filter_distributes_over_add(head, tail, is_below(id));
    lemma_filter_keeps_all(head, is_below(id));
    lemma_filter_drops_all(tail, is_below(id));
    assert(head + Seq::<PeerInfoView>::empty() =~= head);
    Seq::filter_distributes_over_add(head, tail, is_above(id));
    lemma_filter_drops_all(head, is_above(id));
    if k < s.len() && s[k].id == id {
        assert(has_peer(s, id));
        assert forall|i: int| 0 <= i < tail.len() && i != 0 implies is_above(id)(
            #[trigger] tail[i],
        ) by {
            assert(s[k].id < s[k + i].id);
        }
        lemma_filter_around(tail, is_above(id), 0);
        assert(tail.remove(0) =~= s.skip(k + 1));
        assert(Seq::<PeerInfoView>::empty() + s.skip(k + 1) =~= s.skip(k + 1));
        assert forall|i: int| 0 <= i < s.len() && i != k implies is_other(id)(#[trigger] s[i]) by {
            if i < k {
            } else {
                assert(s[k].id < s[i].id);
            }
        }
        lemma_filter_around(s, is_other(id), k);
    } else {
        assert(!has_peer(s, id)) by {
            if has_peer(s, id) {
                let i = choose|i: int| 0 <= i < s.len() && s[i].id == id;
                if i > k {
                    assert(s[k].id < s[i].id);
                }
            }
        }
        assert forall|i: int| 0 <= i < tail.len() implies is_above(id)(#[trigger] tail[i]) by {
            if i > 0 {
                assert(s[k].id < s[k + i].id);
            }
        }
        lemma_filter_keeps_all(tail, is_above(id));
        assert(Seq::<PeerInfoView>::empty() + tail =~= tail);
        assert forall|i: int| 0 <= i < s.len() implies is_other(id)(#[trigger] s[i]) by {
            if i > k {
                assert(s[k].id < s[i].id);
            }
        }
        lemma_filter_keeps_all(s, is_other(id));
    }
}

/// The position at which an id stands, or would stand, in an ascending
/// table.
pub proof fn lemma_position(s: Seq<PeerInfoView>, id: u8) -> (k: int)
    requires
        ascending(s),
    ensures
        0 <= k <= s.len(),
        forall|i: int| 0 <= i < k ==> s[i].id < id,
        forall|i: int| k <= i < s.len() ==> s[i].id >= id,
        has_peer(s, id) <==> k < s.len() && s[k].id == id,
    decreases s.len(),
{
    let k = if s.len() == 0 {
        0
    } else if s.last().id < id {
        assert forall|i: int| 0 <= i < s.len() implies s[i].id < id by {
            if i < s.len() - 1 {
                assert(s[i].id < s[s.len() - 1].id);
            }
        }
        s.len() as int
    } else {
        let t = s.drop_last();
        assert(ascending(t)) by {
            assert forall|i: int, j: int| 0 <= i < j < t.len() implies t[i].id < t[j].id by {
                assert(t[i] == s[i] && t[j] == s[j]);
            }
        }
        let k = lemma_position(t, id);
        assert forall|i: int| 0 <= i < k implies s[i].id < id by {
            assert(t[i] == s[i]);
        }
        assert forall|i: int| k <= i < s.len() implies s[i].id >= id by {
            if i < t.len() {
                assert(t[i] == s[i]);
            }
        }
        k
    };
    lemma_split_at(s, id, k);
    k
}

/// Peers in one direction are counted part by part.
pub proof fn lemma_count_parts(a: Seq<PeerInfoView>, b: Seq<PeerInfoView>, direction: Direction)
    ensures
        count_towards(a + b, direction) == count_towards(a, direction) + count_towards(
            b,
            direction,
        ),
{
    Seq::filter_distributes_over_add(a, b, is_towards(direction));
}

/// One peer counts in its own direction and in no other.
pub proof fn lemma_count_one(p: PeerInfoView, direction: Direction)
    ensures
        count_towards(seq![p], direction) == if p.direction == direction {
            1nat
        } else {
            0nat
        },
{
    if p.direction == direction {
        lemma_filter_keeps_all(seq![p], is_towards(direction));
    } else {
        lemma_filter_drops_all(seq![p], is_towards(direction));
    }
}

/// Each peer is outgoing or incoming, so the two counts make up the table.
pub proof fn lemma_count_total(s: Seq<PeerInfoView>)
    ensures
        count_towards(s, Direction::Outgoing) + count_towards(s, Direction::Incoming) == s.len(),
    decreases s.len(),
{
    reveal(Seq::filter);
    if s.len() > 0 {
        lemma_count_total(s.drop_last());
    }
}

/// Putting a peer into an ascending table sets it at its position: in place
/// of the peer that had its id, or between its neighbours.
pub proof fn lemma_with_peer_at(s: Seq<PeerInfoView>, p: PeerInfoView) -> (k: int)
    requires
        ascending(s),
    ensures
        0 <= k <= s.len(),
        forall|i: int| 0 <= i < k ==> s[i].id < p.id,
        forall|i: int| k <= i < s.len() ==> s[i].id >= p.id,
        has_peer(s, p.id) <==> k < s.len() && s[k].id == p.id,
        has_peer(s, p.id) ==> with_peer(s, p) == s.update(k, p),
        !has_peer(s, p.id) ==> with_peer(s, p) == s.insert(k, p),
{
    let k = lemma_position(s, p.id);
    lemma_split_at(s, p.id, k);
    if has_peer(s, p.id) {
        assert(s.take(k).push(p) + s.skip(k + 1) =~= s.update(k, p));
    } else {
        assert(s.take(k).push(p) + s.skip(k) =~= s.insert(k, p));
    }
    k
}

/// A table stays ascending when a peer is put into it.
pub proof fn lemma_with_peer_ascending(s: Seq<PeerInfoView>, p: PeerInfoView)
    requires
        ascending(s),
    ensures
        ascending(with_peer(s, p)),
        !has_peer(s, p.id) ==> with_peer(s, p).len() == s.len() + 1,
        has_peer(s, p.id) ==> with_peer(s, p).len() == s.len(),
{
    let k = lemma_with_peer_at(s, p);
    let t = with_peer(s, p);
    if has_peer(s, p.id) {
        assert forall|i: int, j: int| 0 <= i < j < t.len() implies t[i].id < t[j].id by {
            assert(s[i].id < s[j].id);
            if i == k {
                assert(t[j] == s[j]);
            } else if j == k {
                assert(t[i] == s[i]);
            } else {
                assert(t[i] == s[i] && t[j] == s[j]);
            }
        }
    } else {
        assert forall|i: int, j: int| 0 <= i < j < t.len() implies t[i].id < t[j].id by {
            if j < k {
                assert(t[i] == s[i] && t[j] == s[j]);
            } else if j == k {
                assert(t[i] == s[i]);
            } else if i < k {
                assert(t[i] == s[i] && t[j] == s[j - 1]);
                assert(s[i].id < s[j - 1].id);
            } else if i == k {
                assert(t[j] == s[j - 1]);
                assert(s[j - 1].id >= p.id);
                assert(s[j - 1].id != p.id) by {
                    if s[j - 1].id == p.id {
                        assert(has_peer(s, p.id));
                    }
                }
            } else {
                assert(t[i] == s[i - 1] && t[j] == s[j - 1]);
                assert(s[i - 1].id < s[j - 1].id);
            }
        }
    }
}

/// After a peer is put into a table, the table holds its id and the ids it
/// held before.
pub proof fn lemma_with_peer_has(s: Seq<PeerInfoView>, p: PeerInfoView, id: u8)
    requires
        ascending(s),
    ensures
        has_peer(with_peer(s, p), id) <==> id == p.id || has_peer(s, id),
{
    let k = lemma_with_peer_at(s, p);
    let t = with_peer(s, p);
    assert(t[k] == p);
    if has_peer(t, id) && id != p.id {
        let i = choose|i: int| 0 <= i < t.len() && t[i].id == id;
        if has_peer(s, p.id) || i < k {
            assert(s[i].id == id);
        } else {
            assert(s[i - 1].id == id);
        }
    }
    if has_peer(s, id) && id != p.id {
        let i = choose|i: int| 0 <= i < s.len() && s[i].id == id;
        if has_peer(s, p.id) || i < k {
            assert(t[i].id == id);
        } else {
            assert(t[i + 1].id == id);
        }
    }
}

/// A new peer adds one to the count of its direction and nothing to the
/// other.
pub proof fn lemma_with_peer_count(s: Seq<PeerInfoView>, p: PeerInfoView, direction: Direction)
    requires
        ascending(s),
        !has_peer(s, p.id),
    ensures
        count_towards(with_peer(s, p), direction) == count_towards(s, direction) + if p.direction
            == direction {
            1nat
        } else {
            0nat
        },
{
    let k = lemma_with_peer_at(s, p);
    let head = s.take(k);
    let tail = s.skip(k);
    assert(s =~= head + tail);
    assert(with_peer(s, p) =~= head + seq![p] + tail);
    lemma_count_parts(head, tail, direction);
    lemma_count_parts(head + seq![p], tail, direction);
    lemma_count_parts(head, seq![p], direction);
    lemma_count_one(p, direction);
}

/// Taking a peer out of an ascending table removes the one entry with its
/// id, if there is one.
pub proof fn lemma_without_peer_at(s: Seq<PeerInfoView>, id: u8) -> (k: int)
    requires
        ascending(s),
    ensures
        0 <= k <= s.len(),
        has_peer(s, id) <==> k < s.len() && s[k].id == id,
        has_peer(s, id) ==> without_peer(s, id) == s.remove(k),
        !has_peer(s, id) ==> without_peer(s, id) == s,
{
    let k = lemma_position(s, id);
    lemma_split_at(s, id, k);
    k
}

/// A table stays ascending when a peer is taken out of it.
pub proof fn lemma_without_peer_ascending(s: Seq<PeerInfoView>, id: u8)
    requires
        ascending(s),
    ensures
        ascending(without_peer(s, id)),
        without_peer(s, id).len() <= s.len(),
{
    let k = lemma_without_peer_at(s, id);
    let t = without_peer(s, id);
    if has_peer(s, id) {
        assert forall|i: int, j: int| 0 <= i < j < t.len() implies t[i].id < t[j].id by {
            if j < k {
                assert(t[i] == s[i] && t[j] == s[j]);
            } else if i < k {
                assert(t[i] == s[i] && t[j] == s[j + 1]);
                assert(s[i].id < s[j + 1].id);
            } else {
                assert(t[i] == s[i + 1] && t[j] == s[j + 1]);
                assert(s[i + 1].id < s[j + 1].id);
            }
        }
    }
}

/// After a peer is taken out of a table, the table holds the other ids it
/// held before, and not the id taken out.
pub proof fn lemma_without_peer_has(s: Seq<PeerInfoView>, id: u8, x: u8)
    requires
        ascending(s),
    ensures
        has_peer(without_peer(s, id), x) <==> x != id && has_peer(s, x),
{
    let k = lemma_without_peer_at(s, id);
    let t = without_peer(s, id);
    if has_peer(s, id) {
        if has_peer(t, x) {
            let i = choose|i: int| 0 <= i < t.len() && t[i].id == x;
            if i < k {
                assert(s[i].id == x);
                assert(s[i].id < s[k].id);
            } else {
                assert(s[i + 1].id == x);
                assert(s[k].id < s[i + 1].id);
            }
        }
        if x != id && has_peer(s, x) {
            let i = choose|i: int| 0 <= i < s.len() && s[i].id == x;
            if i < k {
                assert(t[i].id == x);
            } else {
                assert(t[i - 1].id == x);
            }
        }
    }
}

/// Taking a peer out raises no count.
pub proof fn lemma_without_peer_count(s: Seq<PeerInfoView>, id: u8, direction: Direction)
    requires
        ascending(s),
    ensures
        count_towards(without_peer(s, id), direction) <= count_towards(s, direction),
{
    let k = lemma_without_peer_at(s, id);
    if has_peer(s, id) {
        let head = s.take(k);
        let tail = s.skip(k + 1);
        assert(s =~= head + seq![s[k]] + tail);
        assert(without_peer(s, id) =~= head + tail);
        lemma_count_parts(head, tail, direction);
        lemma_count_parts(head + seq![s[k]], tail, direction);
        lemma_count_parts(head, seq![s[k]], direction);
    }
}

/// Refreshing a peer changes a nickname and a time, nothing else: the table
/// keeps its ids in their places.
pub proof fn lemma_refreshed_ids(s: Seq<PeerInfoView>, id: u8, nickname: Seq<char>, now: u64)
    ensures
        refreshed(s, id, nickname, now).len() == s.len(),
        forall|i: int|
            0 <= i < s.len() ==> (#[trigger] refreshed(s, id, nickname, now)[i]).id == s[i].id,
        ascending(s) ==> ascending(refreshed(s, id, nickname, now)),
{
    let t = refreshed(s, id, nickname, now);
    if ascending(s) {
        assert forall|i: int, j: int| 0 <= i < j < t.len() implies t[i].id < t[j].id by {
            assert(s[i].id < s[j].id);
        }
    }
}

/// Refreshing a peer leaves the table with the same ids.
pub proof fn lemma_refreshed_has(s: Seq<PeerInfoView>, id: u8, nickname: Seq<char>, now: u64, x: u8)
    ensures
        has_peer(refreshed(s, id, nickname, now), x) <==> has_peer(s, x),
{
    let t = refreshed(s, id, nickname, now);
    if has_peer(t, x) {
        let i = choose|i: int| 0 <= i < t.len() && t[i].id == x;
        assert(s[i].id == x);
    }
    if has_peer(s, x) {
        let i = choose|i: int| 0 <= i < s.len() && s[i].id == x;
        assert(t[i].id == x);
    }
}

/// Refreshing a peer changes no count.
pub proof fn lemma_refreshed_count(
    s: Seq<PeerInfoView>,
    id: u8,
    nickname: Seq<char>,
    now: u64,
    direction: Direction,
)
    ensures
        count_towards(refreshed(s, id, nickname, now), direction) == count_towards(s, direction),
    decreases s.len(),
{
    let t = refreshed(s, id, nickname, now);
    reveal(Seq::filter);
    if s.len() > 0 {
        lemma_refreshed_count(s.drop_last(), id, nickname, now, direction);
        assert(t.drop_last() =~= refreshed(s.drop_last(), id, nickname, now));
        assert(t.last().direction == s.last().direction);
    }
}

/// The views of the peers in a vector, in its order.
pub open spec fn peer_views(v: Seq<PeerInfo>) -> Seq<PeerInfoView> {
    v.map_values(|p: PeerInfo| p@)
}

/// The peers of a node, at most one for each id, listed by ascending id.
#[derive(Debug)]
pub struct PeerTable {
    entries: Vec<PeerInfo>,
}

impl View for PeerTable {
    type V = Seq<PeerInfoView>;

    closed spec fn view(&self) -> Seq<PeerInfoView> {
        peer_views(self.entries@)
    }
}

impl PeerTable {
    /// Holds of every table: its peers are listed by ascending id.
    #[verifier::type_invariant]
    pub open spec fn listed_ascending(&self) -> bool {
        ascending(self@)
    }

    /// A table without peers.
    pub fn new() -> (r: PeerTable)
        ensures
            r@ == Seq::<PeerInfoView>::empty(),
    {
        let r = PeerTable { entries: Vec::new() };
        assert(r@ =~= Seq::<PeerInfoView>::empty());
        r
    }

    /// The number of peers.
    pub fn len(&self) -> (n: usize)
        ensures
            n == self@.len(),
    {
        self.entries.len()
    }

    /// The number of peers connected in `direction`.
    pub fn count(&self, direction: Direction) -> (n: usize)
        ensures
            n == count_towards(self@, direction),
    {
        let ghost s = self@;
        let mut n: usize = 0;
        let mut i: usize = 0;
        while i < self.entries.len()
            invariant
                i <= self.entries.len(),
                s == peer_views(self.entries@),
                n == count_towards(s.take(i as int), direction),
                n <= i,
            decreases self.entries.len() - i,
        {
            proof {
                reveal(Seq::filter);
                assert(s.take(i + 1).drop_last() =~= s.take(i as int));
            }
            if self.entries[i].direction == direction {
                n += 1;
            }
            i += 1;
        }
        assert(s.take(i as int) =~= s);
        n
    }

    /// The position at which `id` stands, or would stand.
    fn position(&self, id: u8) -> (k: usize)
        ensures
            k <= self@.len(),
            forall|i: int| 0 <= i < k ==> self@[i].id < id,
            forall|i: int| k <= i < self@.len() ==> self@[i].id >= id,
    {
        proof {
            use_type_invariant(self);
        }
        let mut k: usize = 0;
        while k < self.entries.len() && self.entries[k].id < id
            invariant
                k <= self.entries.len(),
                self@ == peer_views(self.entries@),
                forall|i: int| 0 <= i < k ==> self@[i].id < id,
            decreases self.entries.len() - k,
        {
            k += 1;
        }
        assert forall|i: int| k <= i < self@.len() implies self@[i].id >= id by {
            if i > k {
                assert(self@[k as int].id < self@[i].id);
            }
        }
        k
    }

    /// Tells whether the table holds a peer with this id.
    pub fn contains(&self, id: u8) -> (r: bool)
        ensures
            r == has_peer(self@, id),
    {
        let k = self.position(id);
        proof {
            use_type_invariant(self);
            lemma_split_at(self@, id, k as int);
        }
        k < self.entries.len() && self.entries[k].id == id
    }

    /// The peer with this id, if the table holds one.
    pub fn get(&self, id: u8) -> (r: Option<&PeerInfo>)
        ensures
            match r {
                Some(p) => p.id == id && self@.contains(p@),
                None => !has_peer(self@, id),
            },
    {
        let k = self.position(id);
        proof {
            use_type_invariant(self);
            lemma_split_at(self@, id, k as int);
        }
        if k < self.entries.len() && self.entries[k].id == id {
            assert(self@[k as int] == self.entries[k as int]@);
            Some(&self.entries[k])
        } else {
            None
        }
    }

    /// Puts `peer` into the table, in place of any peer that had its id.
    pub fn insert(&mut self, peer: PeerInfo)
        ensures
            final(self)@ == with_peer(old(self)@, peer@),
    {
        let k = self.position(peer.id);
        let ghost s = self@;
        let ghost p = peer@;
        proof {
            use_type_invariant(&*self);
            lemma_split_at(s, p.id, k as int);
        }
        let mut entries: Vec<PeerInfo> = Vec::new();
        core::mem::swap(&mut self.entries, &mut entries);
        if k < entries.len() && entries[k].id == peer.id {
            entries.set(k, peer);
            assert(peer_views(entries@) =~= s.update(k as int, p));
            assert(s.take(k as int).push(p) + s.skip(k + 1) =~= s.update(k as int, p));
        } else {
            entries.insert(k, peer);
            assert(peer_views(entries@) =~= s.insert(k as int, p));
            assert(s.take(k as int).push(p) + s.skip(k as int) =~= s.insert(k as int, p));
        }
        core::mem::swap(&mut self.entries, &mut entries);
    }

    /// Takes the peer `id` out of the table and returns it; `None` where the
    /// table holds no such peer.
    pub fn remove(&mut self, id: u8) -> (r: Option<PeerInfo>)
        ensures
            final(self)@ == without_peer(old(self)@, id),
            match r {
                Some(p) => p.id == id && old(self)@.contains(p@),
                None => !has_peer(old(self)@, id),
            },
    {
        let k = self.position(id);
        let ghost s = self@;
        proof {
            use_type_invariant(&*self);
            lemma_split_at(s, id, k as int);
        }
        if k < self.entries.len() && self.entries[k].id == id {
            let mut entries: Vec<PeerInfo> = Vec::new();
            core::mem::swap(&mut self.entries, &mut entries);
            let p = entries.remove(k);
            assert(peer_views(entries@) =~= s.remove(k as int));
            assert(s[k as int] == p@);
            core::mem::swap(&mut self.entries, &mut entries);
            Some(p)
        } else {
            None
        }
    }

    /// Records that the peer `id` was heard from at `now` under `nickname`.
    /// A table without that peer is left as it is.
    pub fn refresh(&mut self, id: u8, nickname: String, now: u64)
        ensures
            final(self)@ == refreshed(old(self)@, id, nickname@, now),
    {
        let k = self.position(id);
        let ghost s = self@;
        proof {
            use_type_invariant(&*self);
            lemma_split_at(s, id, k as int);
        }
        if k < self.entries.len() && self.entries[k].id == id {
            let old_entry = &self.entries[k];
            let entry = PeerInfo {
                id: old_entry.id,
                address: old_entry.address,
                nickname,
                direction: old_entry.direction,
                last_seen: now,
            };
            let mut entries: Vec<PeerInfo> = Vec::new();
            core::mem::swap(&mut self.entries, &mut entries);
            entries.set(k, entry);
            assert(peer_views(entries@) =~= refreshed(s, id, nickname@, now));
            core::mem::swap(&mut self.entries, &mut entries);
        } else {
            assert(refreshed(s, id, nickname@, now) =~= s);
        }
    }

    /// The peers, by ascending id.
    pub fn entries(&self) -> (r: &Vec<PeerInfo>)
        ensures
            peer_views(r@) == self@,
            ascending(self@),
    {
        proof {
            use_type_invariant(self);
        }
        &self.entries
    }

    /// A copy of every peer, by ascending id.
    pub fn snapshot(&self) -> (r: Vec<PeerInfo>)
        ensures
            peer_views(r@) == self@,
            ascending(self@),
    {
        proof {
            use_type_invariant(self);
        }
        let mut r: Vec<PeerInfo> = Vec::new();
        let mut i: usize = 0;
        while i < self.entries.len()
            invariant
                i <= self.entries.len(),
                r@.len() == i,
                forall|j: int| 0 <= j < i ==> r@[j] == self.entries@[j],
            decreases self.entries.len() - i,
        {
            r.push(self.entries[i].clone());
            i += 1;
        }
        assert(peer_views(r@) =~= self@);
        r
    }
}

} // verus!
