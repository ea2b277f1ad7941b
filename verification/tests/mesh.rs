use std::collections::VecDeque;

use p2p_chat::message::{Message, MessageId};
use p2p_chat::model::Sweep;
use p2p_chat::node::{Action, DialStep, Node};
use p2p_chat::peers::{Address, Ip};
use p2p_chat::roster::{Roster, RosterEntry};
use p2p_chat::wire::encode;

const NAMES: [&str; 6] = ["alice", "bob", "carol", "dave", "erin", "frank"];

fn port_of(id: u8) -> u16 {
    (id as u16 + 1) * 10000 + 1406
}

fn address_of(id: u8) -> Address {
    Address { ip: Ip::V4(0x7f00_0001), port: port_of(id) }
}

struct Packet {
    to: Address,
    from: Address,
    bytes: Vec<u8>,
    id: Option<MessageId>,
}

/// Nodes on one machine, with the datagrams between them in a queue.
struct Mesh {
    nodes: Vec<Node>,
    shown: Vec<Vec<String>>,
    wire: VecDeque<Packet>,
    clock: u64,
    sent: usize,
    acted: usize,
}

impl Mesh {
    fn new(n: u8, k: usize) -> Mesh {
        let mut nodes = Vec::new();
        for id in 1..=n {
            let entries = (1..=n)
                .map(|id| RosterEntry { id, host: "127.0.0.1".to_string(), port: port_of(id) })
                .collect();
            let roster = Roster::new(entries).unwrap();
            nodes.push(Node::new(id, NAMES[id as usize - 1].to_string(), roster, k).unwrap());
        }
        Mesh {
            shown: vec![Vec::new(); n as usize],
            nodes,
            wire: VecDeque::new(),
            clock: 0,
            sent: 0,
            acted: 0,
        }
    }

    fn node(&mut self, id: u8) -> &mut Node {
        &mut self.nodes[id as usize - 1]
    }

    fn send(&mut self, from: u8, to: Address, message: &Message) {
        if let Some(bytes) = encode(message) {
            self.sent += 1;
            self.wire.push_back(Packet { to, from: address_of(from), bytes, id: message.id() });
        }
    }

    fn carry_out(&mut self, at: u8, actions: Vec<Action>) {
        for action in actions {
            if let Some(line) = action.notice() {
                self.shown[at as usize - 1].push(line);
            }
            match action {
                Action::Reply { to, message } => self.send(at, to, &message),
                Action::Forward { to, message, .. } => self.send(at, to, &message),
                _ => {},
            }
        }
    }

    fn dial(&mut self, from: u8, to: u8) {
        match self.node(from).dial(to) {
            DialStep::Request { port, message, .. } => {
                let target = Address { ip: Ip::V4(0x7f00_0001), port };
                self.send(from, target, &message);
            },
            other => panic!("node {} does not dial {}: {:?}", from, to, other),
        }
    }

    /// Delivers datagrams until none is left, the oldest or the newest
    /// first.
    fn settle(&mut self, newest_first: bool) {
        let mut steps = 0;
        loop {
            let packet = if newest_first {
                self.wire.pop_back()
            } else {
                self.wire.pop_front()
            };
            let Some(packet) = packet else { break };
            steps += 1;
            assert!(steps < 10_000, "the datagrams do not come to an end");
            let Some(index) = (0..self.nodes.len()).find(|i| address_of(*i as u8 + 1) == packet.to)
            else {
                continue;
            };
            self.clock += 1;
            let now = self.clock;
            let fresh = match packet.id {
                Some(id) => !self.nodes[index].has_seen(id),
                None => false,
            };
            let actions = self.nodes[index].receive(&packet.bytes, packet.from, now);
            if fresh {
                self.acted += 1;
            } else if packet.id.is_some() {
                assert!(actions.is_empty());
            }
            self.carry_out(index as u8 + 1, actions);
        }
    }

    fn connect(&mut self, from: u8, to: u8) {
        self.dial(from, to);
        self.settle(false);
        assert!(self.node(from).has_peer(to));
        assert!(self.node(to).has_peer(from));
    }

    fn chat(&mut self, at: u8, text: &str) {
        let actions = self.node(at).on_input(text).unwrap();
        self.carry_out(at, actions);
    }

    fn chat_lines(&self, at: u8) -> Vec<&String> {
        self.shown[at as usize - 1].iter().filter(|l| l.contains("> ")).collect()
    }
}

fn line() -> Mesh {
    let mut mesh = Mesh::new(4, 2);
    mesh.connect(1, 2);
    mesh.connect(2, 3);
    mesh.connect(3, 4);
    mesh
}

fn ring() -> Mesh {
    let mut mesh = line();
    mesh.connect(4, 1);
    mesh
}

fn clique() -> Mesh {
    let mut mesh = Mesh::new(4, 2);
    // each node: at most two that it dialled, at most two that dialled it, three in all
    mesh.connect(1, 2);
    mesh.connect(1, 3);
    mesh.connect(2, 3);
    mesh.connect(2, 4);
    mesh.connect(3, 4);
    mesh.connect(4, 1);
    mesh
}

#[test]
fn a_handshake_connects_both_sides() {
    let mut mesh = Mesh::new(4, 2);
    mesh.connect(1, 2);
    assert_eq!(mesh.node(1).outgoing_count(), 1);
    assert_eq!(mesh.node(1).incoming_count(), 0);
    assert_eq!(mesh.node(2).outgoing_count(), 0);
    assert_eq!(mesh.node(2).incoming_count(), 1);
    assert_eq!(mesh.shown[0], vec!["Peer 2 connected".to_string()]);
    assert_eq!(mesh.shown[1], vec!["Peer 1 connected".to_string()]);
    assert_eq!(mesh.node(2).list_peers()[0].nickname, "alice");
    assert_eq!(mesh.node(1).list_peers()[0].nickname, "bob");
}

#[test]
fn two_nodes_that_dial_each_other_at_once_each_hold_one_entry() {
    let mut mesh = Mesh::new(4, 2);
    mesh.dial(1, 2);
    mesh.dial(2, 1);
    mesh.settle(false);
    assert_eq!(mesh.node(1).peer_count(), 1);
    assert_eq!(mesh.node(2).peer_count(), 1);
    assert!(mesh.node(1).has_peer(2));
    assert!(mesh.node(2).has_peer(1));
    assert_eq!(mesh.shown[0], vec!["Peer 2 connected".to_string()]);
    assert_eq!(mesh.shown[1], vec!["Peer 1 connected".to_string()]);
}

#[test]
fn a_node_in_the_middle_has_one_outgoing_and_one_incoming_peer() {
    let mut mesh = line();
    assert_eq!(mesh.node(2).outgoing_count(), 1);
    assert_eq!(mesh.node(2).incoming_count(), 1);
    assert_eq!(mesh.node(3).outgoing_count(), 1);
    assert_eq!(mesh.node(3).incoming_count(), 1);
}

#[test]
fn chat_reaches_every_node_of_a_line_once() {
    for newest_first in [false, true] {
        let mut mesh = line();
        mesh.chat(1, "hi");
        mesh.settle(newest_first);
        assert!(mesh.chat_lines(1).is_empty());
        for id in 2u8..=4 {
            assert_eq!(mesh.chat_lines(id), vec!["alice> hi"]);
        }
    }
}

#[test]
fn chat_reaches_every_node_of_a_ring_once() {
    for newest_first in [false, true] {
        for origin in 1u8..=4 {
            let mut mesh = ring();
            mesh.chat(origin, "hi");
            mesh.settle(newest_first);
            let expected = format!("{}> hi", NAMES[origin as usize - 1]);
            for id in 1u8..=4 {
                if id == origin {
                    assert!(mesh.chat_lines(id).is_empty());
                } else {
                    assert_eq!(mesh.chat_lines(id), vec![&expected]);
                }
            }
        }
    }
}

#[test]
fn chat_reaches_every_node_of_a_clique_once() {
    for newest_first in [false, true] {
        let mut mesh = clique();
        for id in 1u8..=4 {
            assert_eq!(mesh.node(id).peer_count(), 3);
        }
        mesh.chat(1, "hi");
        mesh.settle(newest_first);
        assert!(mesh.chat_lines(1).is_empty());
        for id in 2u8..=4 {
            assert_eq!(mesh.chat_lines(id), vec!["alice> hi"]);
        }
    }
}

#[test]
fn a_flood_is_acted_on_once_by_every_other_node() {
    for newest_first in [false, true] {
        for mut mesh in [line(), ring(), clique()] {
            mesh.sent = 0;
            mesh.acted = 0;
            mesh.chat(1, "hi");
            mesh.settle(newest_first);
            assert_eq!(mesh.acted, 3);
            assert!(mesh.wire.is_empty());
        }
    }
}

#[test]
fn a_flood_sends_a_bounded_number_of_datagrams() {
    let mut mesh = line();
    mesh.sent = 0;
    mesh.chat(1, "hi");
    mesh.settle(false);
    assert_eq!(mesh.sent, 3);

    let mut mesh = ring();
    mesh.sent = 0;
    mesh.chat(1, "hi");
    mesh.settle(false);
    // two from the origin, one from each other node
    assert_eq!(mesh.sent, 5);

    let mut mesh = clique();
    mesh.sent = 0;
    mesh.chat(1, "hi");
    mesh.settle(false);
    // three from the origin, two from each other node
    assert_eq!(mesh.sent, 9);
}

#[test]
fn chat_does_not_cross_to_a_node_without_a_link() {
    let mut mesh = Mesh::new(4, 2);
    mesh.connect(1, 2);
    mesh.connect(3, 4);
    mesh.chat(1, "hi");
    mesh.settle(false);
    assert_eq!(mesh.chat_lines(2), vec!["alice> hi"]);
    assert!(mesh.chat_lines(3).is_empty());
    assert!(mesh.chat_lines(4).is_empty());
}

#[test]
fn several_messages_are_each_shown_once() {
    let mut mesh = ring();
    mesh.chat(1, "one");
    mesh.chat(3, "two");
    mesh.chat(1, "three");
    mesh.settle(true);
    let mut at_two: Vec<String> = mesh.chat_lines(2).into_iter().cloned().collect();
    at_two.sort();
    assert_eq!(at_two, vec!["alice> one", "alice> three", "carol> two"]);
    let mut at_one: Vec<String> = mesh.chat_lines(1).into_iter().cloned().collect();
    at_one.sort();
    assert_eq!(at_one, vec!["carol> two"]);
}

#[test]
fn a_leave_removes_the_node_everywhere_once() {
    for newest_first in [false, true] {
        for mut mesh in [line(), ring(), clique()] {
            for shown in mesh.shown.iter_mut() {
                shown.clear();
            }
            let had: Vec<bool> = (2u8..=4).map(|id| mesh.node(id).has_peer(1)).collect();
            mesh.chat(1, "\\quit");
            assert!(mesh.node(1).is_shut_down());
            mesh.settle(newest_first);
            for id in 2u8..=4 {
                assert!(!mesh.node(id).has_peer(1));
                assert!(mesh.node(id).has_seen(MessageId { source_node: 1, sequence_number: 1 }));
                let notices = mesh.shown[id as usize - 1].clone();
                if had[id as usize - 2] {
                    assert_eq!(notices, vec!["alice has left the chat".to_string()]);
                } else {
                    assert!(notices.is_empty());
                }
            }
        }
    }
}

#[test]
fn the_others_stay_connected_after_a_leave() {
    let mut mesh = ring();
    mesh.chat(1, "\\quit");
    mesh.settle(false);
    assert!(mesh.node(2).has_peer(3));
    assert!(mesh.node(3).has_peer(2));
    assert!(mesh.node(3).has_peer(4));
    assert!(mesh.node(4).has_peer(3));
    mesh.chat(2, "still here");
    mesh.settle(false);
    assert_eq!(mesh.chat_lines(4), vec!["bob> still here"]);
}

#[test]
fn a_full_node_refuses_and_the_dialler_stays_as_it_was() {
    let mut mesh = Mesh::new(6, 2);
    mesh.connect(2, 1);
    mesh.connect(4, 1);
    mesh.connect(1, 5);
    assert_eq!(mesh.node(1).peer_count(), 3);
    let before = mesh.node(1).list_peers();
    mesh.dial(3, 1);
    mesh.settle(false);
    assert_eq!(mesh.node(1).list_peers(), before);
    assert!(mesh.node(3).list_peers().is_empty());
    assert!(mesh.shown[2].is_empty());
}

#[test]
fn sweeps_fill_a_mesh_within_the_bound() {
    let mut mesh = Mesh::new(6, 2);
    for round in 0..4 {
        for id in 1u8..=6 {
            let reason = if round == 0 { Sweep::Initial } else { Sweep::TopUp };
            for candidate in mesh.node(id).sweep(reason) {
                match mesh.node(id).dial(candidate) {
                    DialStep::Skip => continue,
                    DialStep::Stop => break,
                    DialStep::Request { .. } => {
                        mesh.dial(id, candidate);
                        mesh.settle(false);
                    },
                }
            }
        }
    }
    for id in 1u8..=6 {
        let k = 2;
        assert!(mesh.node(id).outgoing_count() <= k);
        assert!(mesh.node(id).incoming_count() <= k);
        assert!(mesh.node(id).peer_count() <= k + 1);
        assert!(mesh.node(id).peer_count() >= 1);
        assert!(!mesh.node(id).has_peer(id));
    }
}
