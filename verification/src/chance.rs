//! The one place where chance enters: the order in which a node dials.

use vstd::prelude::*;
use rand::seq::SliceRandom;

verus! {

/// `SliceRandom::shuffle` of the crate `rand`, with the generator of the
/// current thread: it only swaps items, so the vector holds the same items
/// afterwards, each as often as before. Nothing is said of their order.
#[verifier::external_body]
pub(crate) fn shuffle(items: &mut Vec<u8>)
    ensures
        final(items)@.to_multiset() == old(items)@.to_multiset(),
{
    items.shuffle(&mut rand::thread_rng());
}

} // verus!
