//! What a node calls itself: the rules for a nickname.

use vstd::prelude::*;
use vstd::utf8::encode_utf8;
use crate::text::{control, is_control, is_space, white_space};

verus! {

/// The longest nickname, in bytes of UTF-8.
pub const MAX_NICKNAME_BYTES: usize = 16;

/// A nickname is at most [`MAX_NICKNAME_BYTES`] long and holds neither white
/// space nor control characters.
pub open spec fn valid_nickname(s: Seq<char>) -> bool {
    &&& encode_utf8(s).len() <= MAX_NICKNAME_BYTES
    &&& forall|i: int| 0 <= i < s.len() ==> !white_space(s[i]) && !control(s[i])
}

/// Tells whether `s` may serve as a nickname.
pub fn is_valid_nickname(s: &str) -> (r: bool)
    ensures
        r == valid_nickname(s@),
{
    if s.as_bytes().len() > MAX_NICKNAME_BYTES {
        return false;
    }
    for c in it: s.chars()
        invariant
            it.seq() == s@,
            encode_utf8(s@).len() <= MAX_NICKNAME_BYTES,
            forall|i: int| 0 <= i < it.index() ==> !white_space(s@[i]) && !control(s@[i]),
    {
        if is_space(c) || is_control(c) {
            return false;
        }
    }
    true
}

} // verus!
