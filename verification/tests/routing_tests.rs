use mrbgpdv2::bgp_type::{AutonomousSystemNumber, Ipv4Addr};
use mrbgpdv2::config::Config;
use mrbgpdv2::error::ConfigParseError;
use mrbgpdv2::packets::update::UpdateMessage;
use mrbgpdv2::path_attribute::{AsPath, Origin, PathAttribute};
use mrbgpdv2::routing::{AdjRibIn, AdjRibOut, Ipv4Network, LocRib, Rib, RibEntry};

fn addr(o1: u8, o2: u8, o3: u8, o4: u8) -> Ipv4Addr {
    Ipv4Addr { o1, o2, o3, o4 }
}

fn net(o1: u8, o2: u8, o3: u8, o4: u8, prefix: u8) -> Ipv4Network {
    Ipv4Network::new(addr(o1, o2, o3, o4), prefix).unwrap()
}

fn seed_attrs(local_ip: Ipv4Addr) -> Vec<PathAttribute> {
    vec![
        PathAttribute::Origin(Origin::Igp),
        PathAttribute::AsPath(AsPath::AsSequence(vec![])),
        PathAttribute::NextHop(local_ip),
    ]
}

#[test]
fn loclib_can_lookup_routing_table() {
    let config = Config::parse(b"64513 10.200.100.3 64512 10.200.100.2 passive 10.100.220.0/24")
        .unwrap();
    let kernel = vec![net(10, 200, 100, 0, 24), net(10, 100, 220, 0, 24)];
    let loc_rib = LocRib::new(&config, &kernel);
    let routes = loc_rib.routes();
    assert_eq!(routes.len(), 1);
    assert_eq!(routes[0].network_address, net(10, 100, 220, 0, 24));
}

#[test]
fn loclib_to_adj_rib_out() {
    let config = Config::parse(b"64513 10.200.100.3 64512 10.200.100.2 passive 10.100.220.0/24")
        .unwrap();
    let kernel = vec![net(10, 100, 220, 0, 24)];
    let loc_rib = LocRib::new(&config, &kernel);
    let mut adj_rib_out = AdjRibOut::new();
    adj_rib_out.install_from_loc_rib(&loc_rib, &config);

    let expected = RibEntry {
        network_address: net(10, 100, 220, 0, 24),
        path_attributes: seed_attrs(addr(10, 200, 100, 3)),
    };
    assert_eq!(adj_rib_out.routes(), vec![expected]);
}

#[test]
fn rib_insert_is_idempotent() {
    let mut rib = Rib::new();
    let entry = RibEntry {
        network_address: net(10, 100, 220, 0, 24),
        path_attributes: seed_attrs(addr(10, 200, 100, 3)),
    };
    rib.insert(entry.clone());
    rib.insert(entry.clone());
    assert_eq!(rib.routes(), vec![entry]);
}

#[test]
fn update_to_all_changed_clears_new_marks() {
    let mut rib = Rib::new();
    rib.insert(RibEntry {
        network_address: net(10, 100, 220, 0, 24),
        path_attributes: seed_attrs(addr(10, 200, 100, 3)),
    });
    assert!(rib.does_contain_new_route());
    rib.update_to_all_changed();
    assert!(!rib.does_contain_new_route());
}

#[test]
fn adj_rib_out_filters_routes_through_remote_as() {
    let config = Config::parse(b"64513 10.200.100.3 64512 10.200.100.2 passive").unwrap();
    let mut loc_rib = LocRib::new(&config, &vec![]);
    // A route learned through the remote peer's ASN 64512, and one clean route.
    let mut adj_rib_in = AdjRibIn::new();
    adj_rib_in.install_from_update(
        &UpdateMessage {
            withdrawn_routes: vec![],
            path_attributes: vec![
                PathAttribute::Origin(Origin::Igp),
                PathAttribute::AsPath(AsPath::AsSequence(vec![AutonomousSystemNumber(64512)])),
                PathAttribute::NextHop(addr(10, 200, 100, 2)),
            ],
            network_layer_reachability_information: vec![net(10, 1, 0, 0, 16)],
        },
        &config,
    );
    adj_rib_in.install_from_update(
        &UpdateMessage {
            withdrawn_routes: vec![],
            path_attributes: vec![
                PathAttribute::Origin(Origin::Igp),
                PathAttribute::AsPath(AsPath::AsSequence(vec![AutonomousSystemNumber(64999)])),
                PathAttribute::NextHop(addr(10, 200, 100, 9)),
            ],
            network_layer_reachability_information: vec![net(10, 2, 0, 0, 16)],
        },
        &config,
    );
    loc_rib.install_from_adj_rib_in(&adj_rib_in);

    let mut adj_rib_out = AdjRibOut::new();
    adj_rib_out.install_from_loc_rib(&loc_rib, &config);
    let routes = adj_rib_out.routes();
    assert_eq!(routes.len(), 1);
    assert_eq!(routes[0].network_address, net(10, 2, 0, 0, 16));
}

#[test]
fn adj_rib_in_rejects_routes_through_local_as() {
    let config = Config::parse(b"64513 10.200.100.3 64512 10.200.100.2 passive").unwrap();
    let mut adj_rib_in = AdjRibIn::new();
    adj_rib_in.install_from_update(
        &UpdateMessage {
            withdrawn_routes: vec![],
            path_attributes: vec![
                PathAttribute::Origin(Origin::Igp),
                PathAttribute::AsPath(AsPath::AsSequence(vec![AutonomousSystemNumber(64513)])),
                PathAttribute::NextHop(addr(10, 200, 100, 2)),
            ],
            network_layer_reachability_information: vec![net(10, 1, 0, 0, 16)],
        },
        &config,
    );
    assert!(adj_rib_in.routes().is_empty());
}

#[test]
fn routes_to_install_pairs_new_routes_with_next_hops() {
    let config = Config::parse(b"64513 10.200.100.3 64512 10.200.100.2 passive 10.100.220.0/24")
        .unwrap();
    let kernel = vec![net(10, 100, 220, 0, 24)];
    let mut loc_rib = LocRib::new(&config, &kernel);
    assert_eq!(
        loc_rib.routes_to_install(),
        vec![(net(10, 100, 220, 0, 24), addr(10, 200, 100, 3))]
    );
    loc_rib.update_to_all_changed();
    assert_eq!(loc_rib.routes_to_install(), vec![]);
}

#[test]
fn config_parse_reads_all_fields() {
    let c = Config::parse(b"64512 127.0.0.1 64513 127.0.0.2 active 10.100.220.0/24").unwrap();
    assert_eq!(c.local_as, AutonomousSystemNumber(64512));
    assert_eq!(c.local_ip, addr(127, 0, 0, 1));
    assert_eq!(c.remote_as, AutonomousSystemNumber(64513));
    assert_eq!(c.remote_ip, addr(127, 0, 0, 2));
    assert_eq!(c.mode, mrbgpdv2::config::Mode::Active);
    assert_eq!(c.networks, vec![net(10, 100, 220, 0, 24)]);
}

#[test]
fn config_parse_rejects_bad_input() {
    assert_eq!(
        Config::parse(b"64512 127.0.0.1 64513 127.0.0.2"),
        Err(ConfigParseError)
    );
    assert_eq!(
        Config::parse(b"64512 127.0.0.1 64513 127.0.0.2 sideways"),
        Err(ConfigParseError)
    );
    assert_eq!(
        Config::parse(b"64512 127.0.0.1 64513 127.0.0.2 active 10.100.220.0/33"),
        Err(ConfigParseError)
    );
    assert_eq!(
        Config::parse(b"64512 127.0.0.256 64513 127.0.0.2 active"),
        Err(ConfigParseError)
    );
    assert_eq!(
        Config::parse(b"65536 127.0.0.1 64513 127.0.0.2 active"),
        Err(ConfigParseError)
    );
}

#[test]
fn event_queue_is_fifo() {
    let mut q = mrbgpdv2::event_queue::EventQueue::new();
    assert!(q.is_empty());
    q.enqueue(mrbgpdv2::event::Event::ManualStart);
    q.enqueue(mrbgpdv2::event::Event::Established);
    assert_eq!(q.dequeue(), Some(mrbgpdv2::event::Event::ManualStart));
    assert_eq!(q.dequeue(), Some(mrbgpdv2::event::Event::Established));
    assert_eq!(q.dequeue(), None);
}

#[test]
fn create_update_messages_emit_origin_igp() {
    let mut adj_rib_out = AdjRibOut::new();
    adj_rib_out.insert(RibEntry {
        network_address: net(10, 1, 0, 0, 16),
        path_attributes: vec![
            PathAttribute::Origin(Origin::Egp),
            PathAttribute::AsPath(AsPath::AsSequence(vec![AutonomousSystemNumber(64777)])),
            PathAttribute::NextHop(addr(9, 9, 9, 9)),
        ],
    });
    let updates = adj_rib_out.create_update_messages(addr(10, 0, 0, 1), AutonomousSystemNumber(64513));
    assert_eq!(updates.len(), 1);
    assert_eq!(
        updates[0].path_attributes,
        vec![
            PathAttribute::Origin(Origin::Igp),
            PathAttribute::AsPath(AsPath::AsSequence(vec![
                AutonomousSystemNumber(64513),
                AutonomousSystemNumber(64777),
            ])),
            PathAttribute::NextHop(addr(10, 0, 0, 1)),
        ]
    );
    assert_eq!(
        updates[0].network_layer_reachability_information,
        vec![net(10, 1, 0, 0, 16)]
    );
}

#[test]
fn config_parse_accepts_runs_of_spaces() {
    let c = Config::parse(b" 64512  127.0.0.1   64513 127.0.0.2  active   10.100.220.0/24 ").unwrap();
    assert_eq!(c.local_as, AutonomousSystemNumber(64512));
    assert_eq!(c.local_ip, addr(127, 0, 0, 1));
    assert_eq!(c.remote_as, AutonomousSystemNumber(64513));
    assert_eq!(c.remote_ip, addr(127, 0, 0, 2));
    assert_eq!(c.mode, mrbgpdv2::config::Mode::Active);
    assert_eq!(c.networks, vec![net(10, 100, 220, 0, 24)]);
}
