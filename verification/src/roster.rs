//! The roster: the fixed list of nodes that may take part, each with the
//! host and port where it listens. It says whom to dial, not who is
//! connected.

use vstd::prelude::*;

verus! {

/// One node of the roster.
#[derive(Debug, PartialEq, Eq)]
pub struct RosterEntry {
    pub id: u8,
    /// A host name or an address in text form; resolving it is left to the
    /// caller.
    pub host: String,
    pub port: u16,
}

/// A [`RosterEntry`] with its host as a sequence of characters.
pub struct RosterEntryView {
    pub id: u8,
    pub host: Seq<char>,
    pub port: u16,
}

impl View for RosterEntry {
    type V = RosterEntryView;

    open spec fn view(&self) -> RosterEntryView {
        RosterEntryView { id: self.id, host: self.host@, port: self.port }
    }
}

impl Clone for RosterEntry {
    fn clone(&self) -> (r: Self)
        ensures
            r == *self,
    {
        RosterEntry { id: self.id, host: self.host.clone(), port: self.port }
    }
}

/// The views of the entries in a vector, in its order.
pub open spec fn entry_views(v: Seq<RosterEntry>) -> Seq<RosterEntryView> {
    v.map_values(|e: RosterEntry| e@)
}

/// The ids of a roster, in its order.
pub open spec fn roster_ids(s: Seq<RosterEntryView>) -> Seq<u8> {
    s.map_values(|e: RosterEntryView| e.id)
}

/// No id stands twice in the roster.
pub open spec fn distinct_ids(s: Seq<RosterEntryView>) -> bool {
    forall|i: int, j: int| 0 <= i < j < s.len() ==> s[i].id != s[j].id
}

/// Whether the roster names the node `id`.
pub open spec fn names(s: Seq<RosterEntryView>, id: u8) -> bool {
    exists|i: int| 0 <= i < s.len() && s[i].id == id
}

/// The ids other than `id`.
pub open spec fn is_not(id: u8) -> spec_fn(u8) -> bool {
    |x: u8| x != id
}

/// The nodes that `id` may dial: every id of the roster but its own, in the
/// roster's order.
pub open spec fn candidates(s: Seq<RosterEntryView>, id: u8) -> Seq<u8> {
    roster_ids(s).filter(is_not(id))
}

/// A list of nodes with distinct ids.
#[derive(Debug)]
pub struct Roster {
    entries: Vec<RosterEntry>,
}

impl View for Roster {
    type V = Seq<RosterEntryView>;

    closed spec fn view(&self) -> Seq<RosterEntryView> {
        entry_views(self.entries@)
    }
}

impl Roster {
    /// Holds of every roster: no id stands twice.
    #[verifier::type_invariant]
    pub open spec fn ids_distinct(&self) -> bool {
        distinct_ids(self@)
    }

    /// Makes a roster of the given entries, in their order. `None` where two
    /// entries share an id.
    pub fn new(entries: Vec<RosterEntry>) -> (r: Option<Roster>)
        ensures
            match r {
                Some(roster) => roster@ == entry_views(entries@) && distinct_ids(roster@),
                None => !distinct_ids(entry_views(entries@)),
            },
    {
        let ghost s = entry_views(entries@);
        let mut j: usize = 0;
        while j < entries.len()
            invariant
                j <= entries.len(),
                s == entry_views(entries@),
                forall|a: int, b: int| 0 <= a < b < j ==> s[a].id != s[b].id,
            decreases entries.len() - j,
        {
            let mut i: usize = 0;
            while i < j
                invariant
                    i <= j < entries.len(),
                    s == entry_views(entries@),
                    forall|a: int| 0 <= a < i ==> s[a].id != s[j as int].id,
                decreases j - i,
            {
                if entries[i].id == entries[j].id {
                    assert(s[i as int].id == s[j as int].id);
                    return None;
                }
                i += 1;
            }
            j += 1;
        }
        Some(Roster { entries })
    }

    /// The number of entries.
    pub fn len(&self) -> (n: usize)
        ensures
            n == self@.len(),
    {
        self.entries.len()
    }

    /// The entry of the node `id`, if the roster names it.
    pub fn find(&self, id: u8) -> (r: Option<&RosterEntry>)
        ensures
            match r {
                Some(e) => e.id == id && self@.contains(e@),
                None => !names(self@, id),
            },
    {
        let mut i: usize = 0;
        while i < self.entries.len()
            invariant
                i <= self.entries.len(),
                self@ == entry_views(self.entries@),
                forall|a: int| 0 <= a < i ==> self@[a].id != id,
            decreases self.entries.len() - i,
        {
            if self.entries[i].id == id {
                assert(self@[i as int] == self.entries[i as int]@);
                return Some(&self.entries[i]);
            }
            i += 1;
        }
        None
    }

    /// The ids of all nodes but `id`, in the roster's order.
    pub fn others(&self, id: u8) -> (r: Vec<u8>)
        ensures
            r@ == candidates(self@, id),
    {
        let ghost ids = roster_ids(self@);
        let mut r: Vec<u8> = Vec::new();
        let mut i: usize = 0;
        while i < self.entries.len()
            invariant
                i <= self.entries.len(),
                self@ == entry_views(self.entries@),
                ids == roster_ids(self@),
                r@ == ids.take(i as int).filter(is_not(id)),
            decreases self.entries.len() - i,
        {
            proof {
                assert(ids.take(i + 1) =~= ids.take(i as int).push(ids[i as int]));
                ids.take(i as int).lemma_filter_push(ids[i as int], is_not(id));
            }
            if self.entries[i].id != id {
                r.push(self.entries[i].id);
            }
            i += 1;
        }
        assert(ids.take(i as int) =~= ids);
        r
    }
}

} // verus!
