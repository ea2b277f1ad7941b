use p2p_chat::message::{Message, MessageId};
use p2p_chat::model::{
    Sweep, BOOTSTRAP_INTERVAL_SECS, DIAL_PACING_MILLIS, TOP_UP_INTERVAL_SECS,
};
use p2p_chat::node::{Action, ConfigError, DialStep, Event, Node};
use p2p_chat::peers::{Address, Direction, Ip, PeerInfo};
use p2p_chat::roster::{Roster, RosterEntry};
use p2p_chat::wire::encode;

fn port_of(id: u8) -> u16 {
    10000 + 100 * id as u16
}

fn address_of(id: u8) -> Address {
    Address { ip: Ip::V4(0x7f00_0001), port: port_of(id) }
}

fn roster(n: u8) -> Roster {
    let entries = (1..=n)
        .map(|id| RosterEntry { id, host: format!("host{}", id), port: port_of(id) })
        .collect();
    Roster::new(entries).unwrap()
}

fn node(id: u8, nickname: &str, k: usize) -> Node {
    Node::new(id, nickname.to_string(), roster(8), k).unwrap()
}

fn request(from_node: u8) -> Message {
    Message::ConnectionRequest { from_node, nickname: format!("n{}", from_node) }
}

fn ack(from_node: u8) -> Message {
    Message::ConnectionAck { from_node, nickname: format!("n{}", from_node) }
}

fn chat(source_node: u8, sequence_number: u32, from_node: u8, content: &str) -> Message {
    Message::ChatMessage {
        source_node,
        sequence_number,
        from_node,
        nickname: format!("n{}", source_node),
        content: content.to_string(),
    }
}

fn closed(source_node: u8, sequence_number: u32, from_node: u8) -> Message {
    Message::ConnectionClosed {
        source_node,
        sequence_number,
        from_node,
        nickname: format!("n{}", source_node),
    }
}

fn accept(node: &mut Node, from: u8) {
    let actions = node.handle_message(request(from), address_of(from), 1);
    assert_eq!(actions.len(), 2, "request of {} was not accepted", from);
}

fn peer_ids(node: &Node) -> Vec<u8> {
    node.list_peers().iter().map(|p| p.id).collect()
}

fn forward_targets(actions: &[Action]) -> Vec<u8> {
    actions
        .iter()
        .filter_map(|a| match a {
            Action::Forward { peer, .. } => Some(*peer),
            _ => None,
        })
        .collect()
}

#[test]
fn a_new_node_has_no_peers_and_has_seen_nothing() {
    let n = node(3, "carol", 2);
    assert_eq!(n.id(), 3);
    assert_eq!(n.nickname(), "carol");
    assert_eq!(n.port(), port_of(3));
    assert_eq!(n.limit(), 2);
    assert_eq!(n.peer_count(), 0);
    assert_eq!(n.outgoing_count(), 0);
    assert_eq!(n.incoming_count(), 0);
    assert_eq!(n.sequence(), 0);
    assert!(!n.is_shut_down());
    assert!(n.list_peers().is_empty());
    assert!(!n.has_seen(MessageId { source_node: 3, sequence_number: 1 }));
}

#[test]
fn an_id_outside_the_roster_is_refused() {
    assert_eq!(
        Node::new(9, "carol".to_string(), roster(4), 2).err(),
        Some(ConfigError::InvalidNodeId)
    );
    assert_eq!(
        Node::new(0, "carol".to_string(), roster(4), 2).err(),
        Some(ConfigError::InvalidNodeId)
    );
}

#[test]
fn a_bad_nickname_is_refused() {
    for bad in ["two words", "tab\there", "0123456789abcdefg", "bell\u{7}"] {
        assert_eq!(
            Node::new(1, bad.to_string(), roster(4), 2).err(),
            Some(ConfigError::InvalidNickname)
        );
    }
}

#[test]
fn the_id_is_checked_before_the_nickname() {
    assert_eq!(
        Node::new(9, "two words".to_string(), roster(4), 2).err(),
        Some(ConfigError::InvalidNodeId)
    );
}

#[test]
fn a_request_is_accepted_with_an_acknowledgement() {
    let mut n = node(1, "alice", 2);
    let actions = n.handle_message(
        Message::ConnectionRequest { from_node: 2, nickname: "bob".to_string() },
        address_of(2),
        77,
    );
    assert_eq!(
        actions,
        vec![
            Action::Reply {
                to: address_of(2),
                message: Message::ConnectionAck { from_node: 1, nickname: "alice".to_string() },
            },
            Action::PeerConnected { peer: 2 },
        ]
    );
    assert_eq!(
        n.list_peers(),
        vec![PeerInfo {
            id: 2,
            address: address_of(2),
            nickname: "bob".to_string(),
            direction: Direction::Incoming,
            last_seen: 77,
        }]
    );
    assert_eq!(n.incoming_count(), 1);
    assert_eq!(n.outgoing_count(), 0);
}

#[test]
fn a_request_of_a_peer_is_refused_as_already_connected() {
    let mut n = node(1, "alice", 2);
    accept(&mut n, 2);
    let before = n.list_peers();
    let actions = n.handle_message(request(2), address_of(2), 5);
    assert_eq!(
        actions,
        vec![Action::Reply {
            to: address_of(2),
            message: Message::ConnectionFail {
                from_node: 1,
                reason: "already connected".to_string(),
            },
        }]
    );
    assert_eq!(n.list_peers(), before);
}

#[test]
fn a_request_beyond_k_incoming_is_refused() {
    let mut n = node(1, "alice", 2);
    accept(&mut n, 2);
    accept(&mut n, 3);
    let actions = n.handle_message(request(4), address_of(4), 5);
    assert_eq!(
        actions,
        vec![Action::Reply {
            to: address_of(4),
            message: Message::ConnectionFail { from_node: 1, reason: "limit reached".to_string() },
        }]
    );
    assert_eq!(peer_ids(&n), vec![2, 3]);
}

#[test]
fn a_request_at_k_plus_one_peers_is_refused_and_changes_nobody() {
    // node 1 holds K+1 = 3 peers: two that dialled it and one that it dialled
    let mut one = node(1, "alice", 2);
    accept(&mut one, 2);
    assert_eq!(one.handle_message(ack(5), address_of(5), 2), vec![Action::PeerConnected { peer: 5 }]);
    accept(&mut one, 4);
    assert_eq!(one.peer_count(), 3);
    let before = one.list_peers();

    let mut three = node(3, "carol", 2);
    let dialled = match three.dial(1) {
        DialStep::Request { message, .. } => message,
        other => panic!("node 3 does not dial: {:?}", other),
    };
    let replies = one.handle_message(dialled, address_of(3), 9);
    assert_eq!(
        replies,
        vec![Action::Reply {
            to: address_of(3),
            message: Message::ConnectionFail { from_node: 1, reason: "limit reached".to_string() },
        }]
    );
    assert_eq!(one.list_peers(), before);

    let refusal = match replies.into_iter().next() {
        Some(Action::Reply { message, .. }) => message,
        other => panic!("no reply: {:?}", other),
    };
    let actions = three.handle_message(refusal, address_of(1), 10);
    assert!(actions.is_empty());
    assert!(three.list_peers().is_empty());
    // the candidate stays open for the next sweep
    assert!(matches!(three.dial(1), DialStep::Request { .. }));
}

#[test]
fn an_acknowledgement_makes_an_outgoing_peer() {
    let mut n = node(1, "alice", 2);
    let actions = n.handle_message(
        Message::ConnectionAck { from_node: 4, nickname: "dave".to_string() },
        address_of(4),
        12,
    );
    assert_eq!(actions, vec![Action::PeerConnected { peer: 4 }]);
    assert_eq!(
        n.list_peers(),
        vec![PeerInfo {
            id: 4,
            address: address_of(4),
            nickname: "dave".to_string(),
            direction: Direction::Outgoing,
            last_seen: 12,
        }]
    );
    assert_eq!(n.outgoing_count(), 1);
}

#[test]
fn a_second_acknowledgement_only_refreshes() {
    let mut n = node(1, "alice", 2);
    accept(&mut n, 4);
    let elsewhere = Address { ip: Ip::V4(1), port: 1 };
    let actions = n.handle_message(
        Message::ConnectionAck { from_node: 4, nickname: "renamed".to_string() },
        elsewhere,
        500,
    );
    assert!(actions.is_empty());
    assert_eq!(
        n.list_peers(),
        vec![PeerInfo {
            id: 4,
            address: address_of(4),
            nickname: "renamed".to_string(),
            direction: Direction::Incoming,
            last_seen: 500,
        }]
    );
}

#[test]
fn a_refusal_changes_nothing() {
    let mut n = node(1, "alice", 2);
    accept(&mut n, 2);
    let before = n.list_peers();
    let actions = n.handle_message(
        Message::ConnectionFail { from_node: 2, reason: "limit reached".to_string() },
        address_of(2),
        3,
    );
    assert!(actions.is_empty());
    assert_eq!(n.list_peers(), before);
    assert_eq!(n.sequence(), 0);
}

#[test]
fn incoming_peers_never_exceed_k() {
    for k in 0usize..4 {
        let mut n = node(1, "alice", k);
        for from in 2u8..=8 {
            n.handle_message(request(from), address_of(from), 1);
            assert!(n.incoming_count() <= k);
            assert!(n.peer_count() <= k + 1);
        }
        assert_eq!(n.incoming_count(), k);
    }
}

#[test]
fn the_degree_bound_holds_while_acknowledgements_come_in_time() {
    let mut n = node(1, "alice", 2);
    // the node dials as a sweep tells it, and each answer comes before the next request
    for candidate in 2u8..=8 {
        match n.dial(candidate) {
            DialStep::Request { .. } => {
                n.handle_message(ack(candidate), address_of(candidate), 1);
            },
            DialStep::Stop => break,
            DialStep::Skip => {},
        }
        assert!(n.outgoing_count() <= 2);
        assert!(n.peer_count() <= 3);
    }
    assert_eq!(n.outgoing_count(), 2);
    for from in 2u8..=8 {
        n.handle_message(request(from), address_of(from), 2);
        assert!(n.outgoing_count() <= 2);
        assert!(n.incoming_count() <= 2);
        assert!(n.peer_count() <= 3);
    }
    assert_eq!(n.peer_count(), 3);
}

#[test]
fn an_acknowledgement_is_taken_at_its_word() {
    // three requests left before any answer came: all three answers are taken in
    let mut n = node(1, "alice", 2);
    for from in [2u8, 3, 4] {
        assert!(matches!(n.dial(from), DialStep::Request { .. }));
    }
    for from in [2u8, 3, 4] {
        n.handle_message(ack(from), address_of(from), 1);
    }
    assert_eq!(n.outgoing_count(), 3);
}

#[test]
fn a_chat_message_is_shown_and_passed_on() {
    let mut n = node(1, "alice", 3);
    for from in [2u8, 3, 4] {
        accept(&mut n, from);
    }
    let actions = n.handle_message(chat(7, 5, 3, "hello"), address_of(3), 9);
    let relayed = chat(7, 5, 1, "hello");
    assert_eq!(
        actions,
        vec![
            Action::ChatLine { nickname: "n7".to_string(), content: "hello".to_string() },
            Action::Forward { peer: 2, to: address_of(2), message: relayed.clone() },
            Action::Forward { peer: 4, to: address_of(4), message: relayed },
        ]
    );
    assert!(n.has_seen(MessageId { source_node: 7, sequence_number: 5 }));
    assert_eq!(peer_ids(&n), vec![2, 3, 4]);
}

#[test]
fn a_message_is_never_sent_back_to_the_peer_it_came_from() {
    for from in 2u8..=5 {
        let mut n = node(1, "alice", 4);
        for peer in 2u8..=5 {
            accept(&mut n, peer);
        }
        let actions = n.handle_message(chat(7, 1, from, "x"), address_of(from), 1);
        let targets = forward_targets(&actions);
        assert!(!targets.contains(&from));
        assert_eq!(targets.len(), 3);
        let actions = n.handle_message(closed(8, 1, from), address_of(from), 1);
        let targets = forward_targets(&actions);
        assert!(!targets.contains(&from));
        assert_eq!(targets.len(), 3);
    }
}

#[test]
fn a_message_from_a_stranger_goes_to_every_peer() {
    let mut n = node(1, "alice", 2);
    accept(&mut n, 2);
    accept(&mut n, 3);
    let actions = n.handle_message(chat(7, 1, 6, "x"), address_of(6), 1);
    assert_eq!(forward_targets(&actions), vec![2, 3]);
}

#[test]
fn a_message_delivered_again_is_dropped() {
    let mut n = node(1, "alice", 2);
    accept(&mut n, 2);
    accept(&mut n, 3);
    let first = n.handle_message(chat(7, 5, 2, "hello"), address_of(2), 1);
    assert_eq!(first.len(), 2);
    let peers = n.list_peers();
    for from in [2u8, 3, 6, 2, 3] {
        let again = n.handle_message(chat(7, 5, from, "hello"), address_of(from), 2);
        assert!(again.is_empty());
        assert_eq!(n.list_peers(), peers);
    }
}

#[test]
fn the_identity_decides_not_the_content_or_the_kind() {
    let mut n = node(1, "alice", 2);
    accept(&mut n, 2);
    assert!(!n.handle_message(chat(7, 5, 2, "hello"), address_of(2), 1).is_empty());
    assert!(n.handle_message(chat(7, 5, 2, "other words"), address_of(2), 1).is_empty());
    assert!(n.handle_message(closed(7, 5, 2), address_of(2), 1).is_empty());
    assert!(!n.handle_message(chat(7, 6, 2, "hello"), address_of(2), 1).is_empty());
    assert!(!n.handle_message(chat(8, 5, 2, "hello"), address_of(2), 1).is_empty());
}

#[test]
fn a_leave_notification_removes_the_peer_once() {
    let mut n = node(1, "alice", 3);
    for from in [2u8, 3, 4] {
        accept(&mut n, from);
    }
    let actions = n.handle_message(closed(3, 1, 3), address_of(3), 4);
    let relayed = closed(3, 1, 1);
    assert_eq!(
        actions,
        vec![
            Action::PeerLeft { nickname: "n3".to_string() },
            Action::Forward { peer: 2, to: address_of(2), message: relayed.clone() },
            Action::Forward { peer: 4, to: address_of(4), message: relayed },
        ]
    );
    assert_eq!(peer_ids(&n), vec![2, 4]);
    // the same notification by another path
    let again = n.handle_message(closed(3, 1, 2), address_of(2), 5);
    assert!(again.is_empty());
    assert_eq!(peer_ids(&n), vec![2, 4]);
}

#[test]
fn a_leave_notification_of_a_stranger_is_passed_on_without_notice() {
    let mut n = node(1, "alice", 3);
    accept(&mut n, 2);
    accept(&mut n, 4);
    let actions = n.handle_message(closed(3, 1, 2), address_of(2), 4);
    assert_eq!(
        actions,
        vec![Action::Forward { peer: 4, to: address_of(4), message: closed(3, 1, 1) }]
    );
    assert_eq!(peer_ids(&n), vec![2, 4]);
    assert!(n.has_seen(MessageId { source_node: 3, sequence_number: 1 }));
}

#[test]
fn a_leave_notification_by_way_of_another_peer_skips_that_peer() {
    let mut n = node(1, "alice", 3);
    for from in [2u8, 3, 4] {
        accept(&mut n, from);
    }
    let actions = n.handle_message(closed(3, 9, 2), address_of(2), 4);
    assert_eq!(
        actions,
        vec![
            Action::PeerLeft { nickname: "n3".to_string() },
            Action::Forward { peer: 4, to: address_of(4), message: closed(3, 9, 1) },
        ]
    );
}

#[test]
fn a_datagram_is_decoded_and_handled() {
    let mut n = node(1, "alice", 2);
    let bytes = encode(&request(2)).unwrap();
    let actions = n.receive(&bytes, address_of(2), 3);
    assert_eq!(actions.len(), 2);
    assert_eq!(peer_ids(&n), vec![2]);
    let bytes = encode(&chat(5, 1, 2, "hi")).unwrap();
    let actions = n.receive(&bytes, address_of(2), 4);
    assert_eq!(
        actions,
        vec![Action::ChatLine { nickname: "n5".to_string(), content: "hi".to_string() }]
    );
}

#[test]
fn a_datagram_with_an_unknown_tag_changes_nothing() {
    let mut n = node(1, "alice", 2);
    accept(&mut n, 2);
    n.handle_message(chat(5, 1, 2, "hi"), address_of(2), 1);
    let peers = n.list_peers();
    let datagrams: [&[u8]; 5] = [
        b"{\"type\":\"Gossip\",\"source_node\":5,\"sequence_number\":2,\"from_node\":2,\"nickname\":\"x\",\"content\":\"y\"}",
        b"{\"type\":\"ConnectionClosed\",\"source_node\":2}",
        b"not json at all",
        b"",
        b"{\"type\":\"ConnectionRequest\",\"from_node\":300,\"nickname\":\"x\"}",
    ];
    for datagram in datagrams {
        let actions = n.receive(datagram, address_of(3), 2);
        assert!(actions.is_empty());
        assert_eq!(n.list_peers(), peers);
        assert!(n.has_seen(MessageId { source_node: 5, sequence_number: 1 }));
        assert!(!n.has_seen(MessageId { source_node: 5, sequence_number: 2 }));
        assert!(!n.has_seen(MessageId { source_node: 2, sequence_number: 0 }));
        assert_eq!(n.sequence(), 0);
        assert!(!n.is_shut_down());
    }
}

#[test]
fn chat_of_the_user_goes_to_every_peer() {
    let mut n = node(1, "alice", 3);
    for from in [2u8, 3, 4] {
        accept(&mut n, from);
    }
    let actions = n.send_chat("hi").unwrap();
    let message = Message::ChatMessage {
        source_node: 1,
        sequence_number: 1,
        from_node: 1,
        nickname: "alice".to_string(),
        content: "hi".to_string(),
    };
    assert_eq!(
        actions,
        vec![
            Action::Forward { peer: 2, to: address_of(2), message: message.clone() },
            Action::Forward { peer: 3, to: address_of(3), message: message.clone() },
            Action::Forward { peer: 4, to: address_of(4), message },
        ]
    );
    assert_eq!(n.sequence(), 1);
    assert!(n.has_seen(MessageId { source_node: 1, sequence_number: 1 }));
}

#[test]
fn sequence_numbers_count_up_from_one() {
    let mut n = node(1, "alice", 2);
    accept(&mut n, 2);
    for expected in 1u32..=5 {
        let actions = n.send_chat("x").unwrap();
        match &actions[0] {
            Action::Forward { message, .. } => assert_eq!(
                message.id(),
                Some(MessageId { source_node: 1, sequence_number: expected })
            ),
            other => panic!("no transmission: {:?}", other),
        }
        assert_eq!(n.sequence(), expected);
    }
}

#[test]
fn chat_without_peers_still_uses_a_number() {
    let mut n = node(1, "alice", 2);
    assert_eq!(n.send_chat("anyone?").unwrap(), Vec::new());
    assert_eq!(n.sequence(), 1);
    assert!(n.has_seen(MessageId { source_node: 1, sequence_number: 1 }));
}

#[test]
fn a_node_does_not_show_its_own_message_when_it_comes_back() {
    let mut n = node(1, "alice", 2);
    accept(&mut n, 2);
    accept(&mut n, 3);
    n.send_chat("hi").unwrap();
    let echo = Message::ChatMessage {
        source_node: 1,
        sequence_number: 1,
        from_node: 3,
        nickname: "alice".to_string(),
        content: "hi".to_string(),
    };
    assert!(n.handle_message(echo, address_of(3), 8).is_empty());
}

#[test]
fn an_identity_seen_before_it_is_used_is_not_sent() {
    let mut n = node(1, "alice", 2);
    accept(&mut n, 2);
    // somebody floods under the identity that this node would use next
    n.handle_message(chat(1, 1, 2, "forged"), address_of(2), 1);
    assert_eq!(n.send_chat("mine").unwrap(), Vec::new());
    assert_eq!(n.sequence(), 1);
    // the next number is free again
    assert_eq!(n.send_chat("mine").unwrap().len(), 1);
    assert_eq!(n.sequence(), 2);
}

#[test]
fn leaving_tells_every_peer_and_shuts_down() {
    let mut n = node(1, "alice", 2);
    accept(&mut n, 2);
    accept(&mut n, 3);
    n.send_chat("bye").unwrap();
    let actions = n.leave();
    let message = Message::ConnectionClosed {
        source_node: 1,
        sequence_number: 2,
        from_node: 1,
        nickname: "alice".to_string(),
    };
    assert_eq!(
        actions,
        vec![
            Action::Forward { peer: 2, to: address_of(2), message: message.clone() },
            Action::Forward { peer: 3, to: address_of(3), message },
            Action::Shutdown,
        ]
    );
    assert!(n.is_shut_down());
    assert_eq!(peer_ids(&n), vec![2, 3]);
}

#[test]
fn leaving_alone_only_shuts_down() {
    let mut n = node(1, "alice", 2);
    assert_eq!(n.leave(), vec![Action::Shutdown]);
    assert!(n.is_shut_down());
    assert_eq!(n.sequence(), 1);
}

#[test]
fn an_empty_line_does_nothing() {
    let mut n = node(1, "alice", 2);
    accept(&mut n, 2);
    for line in ["", "   ", "\n", " \t\r\n"] {
        assert_eq!(n.on_input(line).unwrap(), Vec::new());
    }
    assert_eq!(n.sequence(), 0);
}

#[test]
fn quit_leaves() {
    let mut n = node(1, "alice", 2);
    accept(&mut n, 2);
    let actions = n.on_input("\\quit\n").unwrap();
    assert_eq!(
        actions,
        vec![
            Action::Forward {
                peer: 2,
                to: address_of(2),
                message: Message::ConnectionClosed {
                    source_node: 1,
                    sequence_number: 1,
                    from_node: 1,
                    nickname: "alice".to_string(),
                },
            },
            Action::Shutdown,
        ]
    );
    assert!(n.is_shut_down());
}

#[test]
fn list_shows_the_peers() {
    let mut n = node(1, "alice", 2);
    accept(&mut n, 3);
    accept(&mut n, 2);
    let actions = n.on_input("  \\list  ").unwrap();
    assert_eq!(actions, vec![Action::ShowPeers { peers: n.list_peers() }]);
    assert_eq!(peer_ids(&n), vec![2, 3]);
    assert_eq!(n.sequence(), 0);
}

#[test]
fn help_shows_the_commands() {
    let mut n = node(1, "alice", 2);
    assert_eq!(n.on_input("\\help").unwrap(), vec![Action::ShowHelp]);
    assert!(!n.is_shut_down());
}

#[test]
fn any_other_line_is_chat() {
    let mut n = node(1, "alice", 2);
    accept(&mut n, 2);
    let actions = n.on_input("  hello  there \n").unwrap();
    assert_eq!(
        actions,
        vec![Action::Forward {
            peer: 2,
            to: address_of(2),
            message: Message::ChatMessage {
                source_node: 1,
                sequence_number: 1,
                from_node: 1,
                nickname: "alice".to_string(),
                content: "hello  there".to_string(),
            },
        }]
    );
    // a command with something behind it is chat too
    let actions = n.on_input("\\quit now").unwrap();
    assert_eq!(forward_targets(&actions), vec![2]);
    assert!(!n.is_shut_down());
    let actions = n.on_input("\\unknown").unwrap();
    assert_eq!(forward_targets(&actions), vec![2]);
}

#[test]
fn the_first_sweep_tries_every_other_node() {
    let n = node(3, "carol", 2);
    assert!(n.sweep_due(Sweep::Initial));
    for _ in 0..20 {
        let mut order = n.sweep(Sweep::Initial);
        assert_eq!(order.len(), 7);
        order.sort();
        assert_eq!(order, vec![1, 2, 4, 5, 6, 7, 8]);
    }
}

#[test]
fn sweeps_come_in_more_than_one_order() {
    let n = node(3, "carol", 2);
    let first = n.sweep(Sweep::Initial);
    let mut differs = false;
    for _ in 0..200 {
        if n.sweep(Sweep::Initial) != first {
            differs = true;
        }
    }
    assert!(differs);
}

#[test]
fn the_short_timer_sweeps_only_a_lone_node() {
    let mut n = node(1, "alice", 2);
    assert!(n.sweep_due(Sweep::Bootstrap));
    assert_eq!(n.sweep(Sweep::Bootstrap).len(), 7);
    accept(&mut n, 2);
    assert!(!n.sweep_due(Sweep::Bootstrap));
    assert!(n.sweep(Sweep::Bootstrap).is_empty());
}

#[test]
fn the_long_timer_sweeps_below_k_peers() {
    let mut n = node(1, "alice", 2);
    assert!(n.sweep_due(Sweep::TopUp));
    accept(&mut n, 2);
    assert!(n.sweep_due(Sweep::TopUp));
    assert_eq!(n.sweep(Sweep::TopUp).len(), 7);
    accept(&mut n, 3);
    assert!(!n.sweep_due(Sweep::TopUp));
    assert!(n.sweep(Sweep::TopUp).is_empty());
}

#[test]
fn no_sweep_is_made_at_the_bound() {
    let mut n = node(1, "alice", 2);
    n.handle_message(ack(2), address_of(2), 1);
    n.handle_message(ack(3), address_of(3), 1);
    for reason in [Sweep::Initial, Sweep::Bootstrap, Sweep::TopUp] {
        assert!(!n.sweep_due(reason));
        assert!(n.sweep(reason).is_empty());
    }
    let zero = node(1, "alice", 0);
    for reason in [Sweep::Initial, Sweep::Bootstrap, Sweep::TopUp] {
        assert!(!zero.sweep_due(reason));
    }
}

#[test]
fn a_candidate_gets_a_request() {
    let n = node(1, "alice", 2);
    assert_eq!(
        n.dial(4),
        DialStep::Request {
            peer: 4,
            host: "host4".to_string(),
            port: port_of(4),
            message: Message::ConnectionRequest { from_node: 1, nickname: "alice".to_string() },
        }
    );
}

#[test]
fn a_peer_the_node_itself_and_a_stranger_are_passed_over() {
    let mut n = node(1, "alice", 2);
    accept(&mut n, 2);
    assert_eq!(n.dial(2), DialStep::Skip);
    assert_eq!(n.dial(1), DialStep::Skip);
    assert_eq!(n.dial(99), DialStep::Skip);
    assert!(matches!(n.dial(3), DialStep::Request { .. }));
}

#[test]
fn a_sweep_ends_at_the_bound() {
    let mut n = node(1, "alice", 2);
    n.handle_message(ack(2), address_of(2), 1);
    assert!(matches!(n.dial(4), DialStep::Request { .. }));
    n.handle_message(ack(3), address_of(3), 1);
    assert_eq!(n.dial(4), DialStep::Stop);
    // a peer is passed over even at the bound
    assert_eq!(n.dial(2), DialStep::Skip);

    let mut full = node(1, "alice", 2);
    accept(&mut full, 2);
    accept(&mut full, 3);
    full.handle_message(ack(4), address_of(4), 1);
    assert_eq!(full.peer_count(), 3);
    assert_eq!(full.outgoing_count(), 1);
    assert_eq!(full.dial(5), DialStep::Stop);
}

#[test]
fn only_the_long_timer_is_not_paced() {
    assert!(Sweep::Initial.is_paced());
    assert!(Sweep::Bootstrap.is_paced());
    assert!(!Sweep::TopUp.is_paced());
    assert_eq!(BOOTSTRAP_INTERVAL_SECS, 3);
    assert_eq!(TOP_UP_INTERVAL_SECS, 10);
    assert_eq!(DIAL_PACING_MILLIS, 500);
}

#[test]
fn a_step_does_what_the_event_asks_for() {
    let mut stepped = node(1, "alice", 2);
    let mut called = node(1, "alice", 2);

    let a = stepped.step(Event::Message { message: request(2), sender: address_of(2), now: 4 });
    let b = called.handle_message(request(2), address_of(2), 4);
    assert_eq!(a, b);

    let bytes = encode(&chat(5, 1, 2, "hi")).unwrap();
    let a = stepped.step(Event::Datagram { bytes: bytes.clone(), sender: address_of(2), now: 5 });
    let b = called.receive(&bytes, address_of(2), 5);
    assert_eq!(a, b);
    assert_eq!(a.len(), 1);

    let a = stepped.step(Event::Datagram { bytes: b"junk".to_vec(), sender: address_of(2), now: 6 });
    assert!(a.is_empty());

    let a = stepped.step(Event::Chat { content: "one".to_string() });
    let b = called.send_chat("one").unwrap();
    assert_eq!(a, b);
    assert_eq!(a.len(), 1);

    let a = stepped.step(Event::Input { line: " \\list\n".to_string() });
    let b = called.on_input(" \\list\n").unwrap();
    assert_eq!(a, b);
    assert!(matches!(a[0], Action::ShowPeers { .. }));

    let a = stepped.step(Event::Input { line: "two".to_string() });
    let b = called.on_input("two").unwrap();
    assert_eq!(a, b);
    assert_eq!(stepped.sequence(), 2);

    let a = stepped.step(Event::Leave);
    let b = called.leave();
    assert_eq!(a, b);
    assert!(stepped.is_shut_down());
    assert_eq!(stepped.list_peers(), called.list_peers());
    assert_eq!(stepped.sequence(), called.sequence());
}
