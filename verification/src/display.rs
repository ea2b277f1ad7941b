//! The lines that a node shows to its user.

use vstd::prelude::*;
use vstd::string::*;
use crate::model::ActionView;
use crate::node::Action;
use crate::peers::{Direction, PeerInfo, PeerInfoView};

verus! {

/// The character of a decimal digit.
pub open spec fn digit_char(d: nat) -> char
    recommends
        d < 10,
{
    if d == 0 {
        '0'
    } else if d == 1 {
        '1'
    } else if d == 2 {
        '2'
    } else if d == 3 {
        '3'
    } else if d == 4 {
        '4'
    } else if d == 5 {
        '5'
    } else if d == 6 {
        '6'
    } else if d == 7 {
        '7'
    } else if d == 8 {
        '8'
    } else {
        '9'
    }
}

/// A number in decimal, without leading zeros.
pub open spec fn decimal(n: nat) -> Seq<char>
    decreases n,
{
    if n < 10 {
        seq![digit_char(n)]
    } else {
        decimal(n / 10).push(digit_char(n % 10))
    }
}

/// How a direction is shown.
pub open spec fn direction_label(direction: Direction) -> Seq<char> {
    match direction {
        Direction::Outgoing => "outgoing"@,
        Direction::Incoming => "incoming"@,
    }
}

/// The line that tells the user of an action, for the actions that are
/// notices. A connected peer is shown by its id, a departed one by its
/// nickname, and a chat message as the nickname, `"> "` and the content.
pub open spec fn notice_of(action: ActionView) -> Option<Seq<char>> {
    match action {
        ActionView::PeerConnected { peer } => Some(
            "Peer "@ + decimal(peer as nat) + " connected"@,
        ),
        ActionView::PeerLeft { nickname } => Some(nickname + " has left the chat"@),
        ActionView::ChatLine { nickname, content } => Some(nickname + "> "@ + content),
        _ => None,
    }
}

/// The line for one peer in the list of peers, with its address in the text
/// form that the caller gives.
pub open spec fn peer_line_of(peer: PeerInfoView, address: Seq<char>) -> Seq<char> {
    "  Node "@ + decimal(peer.id as nat) + ": "@ + address + " ("@ + direction_label(
        peer.direction,
    ) + ") - "@ + peer.nickname
}

/// The line that ends the list of peers.
pub open spec fn total_line_of(n: nat) -> Seq<char> {
    "Total connections: "@ + decimal(n)
}

/// A decimal digit as text.
fn digit_text(d: usize) -> (r: &'static str)
    requires
        d < 10,
    ensures
        r@ == seq![digit_char(d as nat)],
{
    proof {
        reveal_strlit("0");
        reveal_strlit("1");
        reveal_strlit("2");
        reveal_strlit("3");
        reveal_strlit("4");
        reveal_strlit("5");
        reveal_strlit("6");
        reveal_strlit("7");
        reveal_strlit("8");
        reveal_strlit("9");
    }
    let r = if d == 0 {
        "0"
    } else if d == 1 {
        "1"
    } else if d == 2 {
        "2"
    } else if d == 3 {
        "3"
    } else if d == 4 {
        "4"
    } else if d == 5 {
        "5"
    } else if d == 6 {
        "6"
    } else if d == 7 {
        "7"
    } else if d == 8 {
        "8"
    } else {
        "9"
    };
    assert(r@ =~= seq![digit_char(d as nat)]);
    r
}

/// Appends a number in decimal.
pub fn push_decimal(out: &mut String, n: usize)
    ensures
        final(out)@ == old(out)@ + decimal(n as nat),
    decreases n,
{
    if n >= 10 {
        push_decimal(out, n / 10);
    }
    out.append(digit_text(n % 10));
    assert(out@ =~= old(out)@ + decimal(n as nat));
}

impl Direction {
    /// How the direction is shown.
    pub fn label(self) -> (r: &'static str)
        ensures
            r@ == direction_label(self),
    {
        match self {
            Direction::Outgoing => "outgoing",
            Direction::Incoming => "incoming",
        }
    }
}

impl Action {
    /// The line that tells the user of this action, or `None` for an action
    /// that is no notice.
    pub fn notice(&self) -> (r: Option<String>)
        ensures
            match r {
                Some(line) => notice_of(self@) == Some(line@),
                None => notice_of(self@) is None,
            },
    {
        match self {
            Action::PeerConnected { peer } => {
                let mut line = String::from_str("Peer ");
                push_decimal(&mut line, *peer as usize);
                line.append(" connected");
                Some(line)
            },
            Action::PeerLeft { nickname } => {
                let mut line = nickname.clone();
                line.append(" has left the chat");
                Some(line)
            },
            Action::ChatLine { nickname, content } => {
                let mut line = nickname.clone();
                line.append("> ");
                line.append(content.as_str());
                Some(line)
            },
            _ => None,
        }
    }
}

/// The line for one peer in the list of peers. `address` is the peer's
/// address as text.
pub fn peer_line(peer: &PeerInfo, address: &str) -> (r: String)
    ensures
        r@ == peer_line_of(peer@, address@),
{
    let mut line = String::from_str("  Node ");
    push_decimal(&mut line, peer.id as usize);
    line.append(": ");
    line.append(address);
    line.append(" (");
    line.append(peer.direction.label());
    line.append(") - ");
    line.append(peer.nickname.as_str());
    line
}

/// The line that ends the list of peers.
pub fn total_line(n: usize) -> (r: String)
    ensures
        r@ == total_line_of(n as nat),
{
    let mut line = String::from_str("Total connections: ");
    push_decimal(&mut line, n);
    line
}

} // verus!
