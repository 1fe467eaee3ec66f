use mrbgpdv2::bgp_type::{AutonomousSystemNumber, Ipv4Addr};
use mrbgpdv2::config::Config;
use mrbgpdv2::event::Event;
use mrbgpdv2::packets::message::Message;
use mrbgpdv2::peer::{Action, Peer};
use mrbgpdv2::routing::{Ipv4Network, LocRib};
use mrbgpdv2::state::State;

fn addr(o1: u8, o2: u8, o3: u8, o4: u8) -> Ipv4Addr {
    Ipv4Addr { o1, o2, o3, o4 }
}

fn net(o1: u8, o2: u8, o3: u8, o4: u8, prefix: u8) -> Ipv4Network {
    Ipv4Network::new(addr(o1, o2, o3, o4), prefix).unwrap()
}

/// One cooperative step of a peer; connection establishment succeeds at
/// once, and sent messages cross the simulated wire byte-for-byte.
fn step(peer: &mut Peer, loc_rib: &mut LocRib, wire_out: &mut Vec<Message>) {
    let actions = peer.next(loc_rib);
    for action in actions {
        match action {
            Action::EstablishConnection => peer.enqueue_event(Event::TcpConnectionConfirmed),
            Action::SendMessage(m) => {
                let bytes = m.encode();
                wire_out.push(Message::decode(&bytes).unwrap());
            }
            Action::InstallRoutes(_) => {}
        }
    }
}

/// Hands every pending message of `wire` to `peer`, oldest first.
fn deliver(peer: &mut Peer, wire: &mut Vec<Message>) {
    for m in wire.drain(..) {
        peer.handle_message(m);
    }
}

fn active_pair() -> (Peer, LocRib, Peer, LocRib) {
    let config_a = Config::parse(b"64512 127.0.0.1 64513 127.0.0.2 active").unwrap();
    let config_b = Config::parse(b"64513 127.0.0.2 64512 127.0.0.1 passive").unwrap();
    let loc_rib_a = LocRib::new(&config_a, &vec![]);
    let loc_rib_b = LocRib::new(&config_b, &vec![]);
    (Peer::new(config_a), loc_rib_a, Peer::new(config_b), loc_rib_b)
}

/// Runs both peers until each reaches `goal` or the step budget runs out.
fn run_until(
    a: &mut Peer,
    rib_a: &mut LocRib,
    b: &mut Peer,
    rib_b: &mut LocRib,
    goal: State,
    max_steps: usize,
) {
    let mut a_to_b: Vec<Message> = Vec::new();
    let mut b_to_a: Vec<Message> = Vec::new();
    for _ in 0..max_steps {
        if a.state == goal && b.state == goal {
            break;
        }
        step(a, rib_a, &mut a_to_b);
        step(b, rib_b, &mut b_to_a);
        deliver(b, &mut a_to_b);
        deliver(a, &mut b_to_a);
    }
}

#[test]
fn peer_can_transition_to_connect_state() {
    let (mut peer, mut loc_rib, _, _) = active_pair();
    peer.start();
    let mut wire: Vec<Message> = Vec::new();
    step(&mut peer, &mut loc_rib, &mut wire);
    assert_eq!(peer.state, State::Connect);
}

#[test]
fn peer_can_transition_to_open_sent_state() {
    let (mut peer, mut loc_rib, _, _) = active_pair();
    peer.start();
    let mut wire: Vec<Message> = Vec::new();
    step(&mut peer, &mut loc_rib, &mut wire);
    step(&mut peer, &mut loc_rib, &mut wire);
    assert_eq!(peer.state, State::OpenSent);
    assert_eq!(
        wire,
        vec![Message::new_open(AutonomousSystemNumber(64512), addr(127, 0, 0, 1))]
    );
}

#[test]
fn peer_can_transition_to_open_confirm_state() {
    let (mut a, mut rib_a, mut b, mut rib_b) = active_pair();
    a.start();
    b.start();
    run_until(&mut a, &mut rib_a, &mut b, &mut rib_b, State::OpenConfirm, 50);
    assert_eq!(a.state, State::OpenConfirm);
    assert_eq!(b.state, State::OpenConfirm);
}

#[test]
fn peer_can_transition_to_established_state() {
    let (mut a, mut rib_a, mut b, mut rib_b) = active_pair();
    a.start();
    b.start();
    run_until(&mut a, &mut rib_a, &mut b, &mut rib_b, State::Established, 50);
    assert_eq!(a.state, State::Established);
    assert_eq!(b.state, State::Established);
}

fn propagation_pair() -> (Peer, LocRib, Peer, LocRib) {
    let config_a =
        Config::parse(b"64512 127.0.0.1 64513 127.0.0.2 active 10.100.220.0/24").unwrap();
    let config_b = Config::parse(b"64513 127.0.0.2 64512 127.0.0.1 passive").unwrap();
    // A's kernel forwarding table is seeded with the advertised network.
    let loc_rib_a = LocRib::new(&config_a, &vec![net(10, 100, 220, 0, 24)]);
    let loc_rib_b = LocRib::new(&config_b, &vec![]);
    (Peer::new(config_a), loc_rib_a, Peer::new(config_b), loc_rib_b)
}

#[test]
fn route_propagation() {
    let (mut a, mut rib_a, mut b, mut rib_b) = propagation_pair();
    a.start();
    b.start();
    run_until(&mut a, &mut rib_a, &mut b, &mut rib_b, State::Established, 50);
    assert_eq!(a.state, State::Established);
    assert_eq!(b.state, State::Established);
    // Let the UPDATE exchange and RIB propagation run to quiescence.
    let mut a_to_b: Vec<Message> = Vec::new();
    let mut b_to_a: Vec<Message> = Vec::new();
    for _ in 0..50 {
        step(&mut a, &mut rib_a, &mut a_to_b);
        step(&mut b, &mut rib_b, &mut b_to_a);
        deliver(&mut b, &mut a_to_b);
        deliver(&mut a, &mut b_to_a);
    }
    let routes = rib_b.routes();
    assert_eq!(routes.len(), 1);
    let entry = &routes[0];
    assert_eq!(entry.network_address, net(10, 100, 220, 0, 24));
    let mut saw_igp = false;
    let mut saw_as_64512 = false;
    let mut next_hop = None;
    for attr in &entry.path_attributes {
        match attr {
            mrbgpdv2::path_attribute::PathAttribute::Origin(
                mrbgpdv2::path_attribute::Origin::Igp,
            ) => saw_igp = true,
            mrbgpdv2::path_attribute::PathAttribute::AsPath(p) => {
                saw_as_64512 = p.does_contain(AutonomousSystemNumber(64512));
            }
            mrbgpdv2::path_attribute::PathAttribute::NextHop(ip) => next_hop = Some(*ip),
            _ => {}
        }
    }
    assert!(saw_igp);
    assert!(saw_as_64512);
    assert_eq!(next_hop, Some(addr(127, 0, 0, 1)));
}

#[test]
fn loop_avoidance() {
    let (mut a, mut rib_a, mut b, mut rib_b) = propagation_pair();
    a.start();
    b.start();
    run_until(&mut a, &mut rib_a, &mut b, &mut rib_b, State::Established, 50);
    let mut a_to_b: Vec<Message> = Vec::new();
    let mut b_to_a: Vec<Message> = Vec::new();
    for _ in 0..50 {
        step(&mut a, &mut rib_a, &mut a_to_b);
        step(&mut b, &mut rib_b, &mut b_to_a);
        deliver(&mut b, &mut a_to_b);
        deliver(&mut a, &mut b_to_a);
    }
    // B learned the route, but must not offer it back toward A: its AS_PATH
    // carries A's ASN 64512.
    assert_eq!(rib_b.routes().len(), 1);
    for entry in b.adj_rib_out.routes() {
        assert_ne!(entry.network_address, net(10, 100, 220, 0, 24));
    }
    assert!(b.adj_rib_out.routes().is_empty());
}
