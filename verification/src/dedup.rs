//! The dedup cache: the identities of all flooded messages that a node has
//! processed. Nothing ever leaves it.

use vstd::prelude::*;
use std::collections::HashSet;
use crate::message::MessageId;

verus! {

/// The number under which an identity is kept: the origin in the bits above
/// the sequence number. Distinct identities have distinct keys.
pub open spec fn key_of(id: MessageId) -> u64 {
    (id.source_node as u64 * 0x1_0000_0000 + id.sequence_number as u64) as u64
}

/// The set of message identities that a node has processed.
#[derive(Debug)]
pub struct DedupCache {
    keys: HashSet<u64>,
}

impl View for DedupCache {
    type V = Set<MessageId>;

    closed spec fn view(&self) -> Set<MessageId> {
        Set::new(|id: MessageId| self.keys@.contains(key_of(id)))
    }
}

impl DedupCache {
    /// A cache that has seen nothing.
    pub fn new() -> (r: DedupCache)
        ensures
            r@ == Set::<MessageId>::empty(),
    {
        let r = DedupCache { keys: HashSet::new() };
        assert(r@ =~= Set::<MessageId>::empty());
        r
    }

    /// The key of an identity.
    fn key(id: MessageId) -> (k: u64)
        ensures
            k == key_of(id),
    {
        id.source_node as u64 * 0x1_0000_0000 + id.sequence_number as u64
    }

    /// Tells whether `id` was marked before.
    pub fn seen(&self, id: MessageId) -> (r: bool)
        ensures
            r == self@.contains(id),
    {
        broadcast use vstd::std_specs::hash::group_hash_axioms;

        let k = Self::key(id);
        self.keys.contains(&k)
    }

    /// Marks `id` as processed.
    pub fn mark(&mut self, id: MessageId)
        ensures
            final(self)@ == old(self)@.insert(id),
    {
        broadcast use vstd::std_specs::hash::group_hash_axioms;

        let k = Self::key(id);
        self.keys.insert(k);
        assert(self@ =~= old(self)@.insert(id));
    }

    /// Marks `id` and tells whether it was new: the one step that decides
    /// whether a message is processed. It answers `true` once for each
    /// identity.
    pub fn check_and_insert(&mut self, id: MessageId) -> (fresh: bool)
        ensures
            fresh == !old(self)@.contains(id),
            final(self)@ == old(self)@.insert(id),
    {
        broadcast use vstd::std_specs::hash::group_hash_axioms;

        let k = Self::key(id);
        let fresh = self.keys.insert(k);
        assert(self@ =~= old(self)@.insert(id));
        fresh
    }
}

} // verus!
