use mrbgpdv2::bgp_type::{AutonomousSystemNumber, Ipv4Addr};
use mrbgpdv2::error::DecodeError;
use mrbgpdv2::packets::header::Header;
use mrbgpdv2::packets::message::Message;
use mrbgpdv2::packets::update::UpdateMessage;
use mrbgpdv2::path_attribute::{AsPath, Origin, PathAttribute};
use mrbgpdv2::routing::Ipv4Network;

fn addr(o1: u8, o2: u8, o3: u8, o4: u8) -> Ipv4Addr {
    Ipv4Addr { o1, o2, o3, o4 }
}

fn net(o1: u8, o2: u8, o3: u8, o4: u8, prefix: u8) -> Ipv4Network {
    Ipv4Network::new(addr(o1, o2, o3, o4), prefix).unwrap()
}

#[test]
fn nlri_prefix_zero_encodes_one_byte() {
    let n = net(0, 0, 0, 0, 0);
    assert_eq!(n.encode(), vec![0x00]);
    assert_eq!(n.bytes_len(), 1);
}

#[test]
fn nlri_prefix_32_encodes_five_bytes() {
    let n = net(10, 100, 220, 3, 32);
    assert_eq!(n.encode(), vec![32, 10, 100, 220, 3]);
    assert_eq!(n.bytes_len(), 5);
}

#[test]
fn nlri_round_trip_single() {
    let n = net(10, 100, 220, 0, 24);
    let bytes = n.encode();
    assert_eq!(bytes, vec![24, 10, 100, 220]);
    let decoded = Ipv4Network::from_u8_slice(&bytes).unwrap();
    assert_eq!(decoded, vec![n]);
}

#[test]
fn nlri_round_trip_concatenated() {
    let a = net(10, 0, 0, 0, 8);
    let b = net(192, 168, 1, 0, 30);
    let c = net(0, 0, 0, 0, 0);
    let mut bytes = a.encode();
    bytes.extend(b.encode());
    bytes.extend(c.encode());
    let decoded = Ipv4Network::from_u8_slice(&bytes).unwrap();
    assert_eq!(decoded, vec![a, b, c]);
}

#[test]
fn nlri_encoding_masks_host_bits() {
    let n = net(10, 100, 220, 9, 24);
    assert_eq!(n.encode(), vec![24, 10, 100, 220]);
    assert_eq!(n.network(), addr(10, 100, 220, 0));
}

#[test]
fn nlri_rejects_prefix_over_32() {
    let bytes = vec![33u8, 1, 2, 3, 4, 5];
    assert_eq!(
        Ipv4Network::from_u8_slice(&bytes),
        Err(DecodeError::MalformedNlri)
    );
}

#[test]
fn nlri_rejects_incomplete_prefix() {
    let bytes = vec![24u8, 10];
    assert_eq!(
        Ipv4Network::from_u8_slice(&bytes),
        Err(DecodeError::MalformedNlri)
    );
}

fn raw_header(length: u16, type_code: u8) -> Vec<u8> {
    let mut b = vec![0xFFu8; 16];
    b.push((length / 256) as u8);
    b.push((length % 256) as u8);
    b.push(type_code);
    b
}

#[test]
fn header_rejects_length_18() {
    let b = raw_header(18, 4);
    assert_eq!(Header::decode(&b), Err(DecodeError::MalformedHeader));
}

#[test]
fn header_rejects_length_4097() {
    let b = raw_header(4097, 4);
    assert_eq!(Header::decode(&b), Err(DecodeError::MalformedHeader));
}

#[test]
fn header_rejects_cleared_marker_bit() {
    for i in 0..16 {
        let mut b = raw_header(19, 4);
        b[i] &= 0xFE;
        assert_eq!(Header::decode(&b), Err(DecodeError::MalformedHeader));
    }
}

#[test]
fn header_rejects_unknown_type() {
    let b = raw_header(19, 5);
    assert_eq!(Header::decode(&b), Err(DecodeError::MalformedHeader));
}

#[test]
fn keepalive_round_trip() {
    let m = Message::new_keepalive();
    let bytes = m.encode();
    assert_eq!(bytes.len(), 19);
    assert_eq!(Message::decode(&bytes).unwrap(), m);
}

#[test]
fn open_round_trip() {
    let m = Message::new_open(AutonomousSystemNumber(64512), addr(127, 0, 0, 1));
    let bytes = m.encode();
    assert_eq!(bytes.len(), 29);
    assert_eq!(Message::decode(&bytes).unwrap(), m);
}

fn sample_update() -> UpdateMessage {
    UpdateMessage {
        withdrawn_routes: vec![net(192, 168, 0, 0, 16)],
        path_attributes: vec![
            PathAttribute::Origin(Origin::Igp),
            PathAttribute::AsPath(AsPath::AsSequence(vec![AutonomousSystemNumber(64512)])),
            PathAttribute::NextHop(addr(127, 0, 0, 1)),
        ],
        network_layer_reachability_information: vec![net(10, 100, 220, 0, 24)],
    }
}

#[test]
fn update_round_trip() {
    let m = Message::Update(sample_update());
    let bytes = m.encode();
    assert_eq!(Message::decode(&bytes).unwrap(), m);
}

#[test]
fn update_round_trip_empty_as_path() {
    let m = Message::Update(UpdateMessage {
        withdrawn_routes: vec![],
        path_attributes: vec![
            PathAttribute::Origin(Origin::Igp),
            PathAttribute::AsPath(AsPath::AsSequence(vec![])),
            PathAttribute::NextHop(addr(10, 200, 100, 3)),
        ],
        network_layer_reachability_information: vec![net(10, 100, 220, 0, 24)],
    });
    let bytes = m.encode();
    assert_eq!(Message::decode(&bytes).unwrap(), m);
}

#[test]
fn update_header_length_field_matches_encoded_length() {
    let m = Message::Update(sample_update());
    let bytes = m.encode();
    let field = (bytes[16] as usize) * 256 + (bytes[17] as usize);
    assert_eq!(field, bytes.len());
}

#[test]
fn update_missing_mandatory_attribute_rejected() {
    // Body: no withdrawn routes, only an ORIGIN attribute, one announced route.
    let mut body = vec![0u8, 0]; // withdrawn routes length
    body.extend([0u8, 4]); // total path attribute length
    body.extend([0x40, 1, 1, 0]); // ORIGIN IGP only
    body.extend([24, 10, 100, 220]); // NLRI
    let mut bytes = raw_header((19 + body.len()) as u16, 2);
    bytes.extend(body);
    assert_eq!(Message::decode(&bytes), Err(DecodeError::MalformedUpdate));
}

#[test]
fn notification_terminates_decode() {
    let b = raw_header(19, 3);
    assert_eq!(Message::decode(&b), Err(DecodeError::NotificationReceived));
}

#[test]
fn framing_splits_whole_messages() {
    let open = Message::new_open(AutonomousSystemNumber(64512), addr(127, 0, 0, 1));
    let keepalive = Message::new_keepalive();
    let mut buffer = open.encode();
    buffer.extend(keepalive.encode());
    buffer.extend([0xFF, 0xFF]); // a partial next message

    let first = mrbgpdv2::framing::split_buffer_at_message_separator(&mut buffer).unwrap();
    assert_eq!(Message::decode(&first).unwrap(), open);
    let second = mrbgpdv2::framing::split_buffer_at_message_separator(&mut buffer).unwrap();
    assert_eq!(Message::decode(&second).unwrap(), keepalive);
    assert!(mrbgpdv2::framing::split_buffer_at_message_separator(&mut buffer).is_none());
    assert_eq!(buffer, vec![0xFF, 0xFF]);
}

#[test]
fn framing_waits_for_complete_header() {
    let mut buffer = vec![0xFFu8; 10];
    assert!(mrbgpdv2::framing::get_index_of_message_separator(&buffer).is_none());
    assert!(mrbgpdv2::framing::split_buffer_at_message_separator(&mut buffer).is_none());
    assert_eq!(buffer.len(), 10);
}

#[test]
fn nlri_bytes_len_matches_formula() {
    for (prefix, expected) in [(0u8, 1usize), (1, 2), (8, 2), (9, 3), (16, 3), (17, 4), (24, 4), (25, 5), (32, 5)] {
        let n = net(10, 0, 0, 0, prefix);
        assert_eq!(n.bytes_len(), expected);
        assert_eq!(n.encode().len(), expected);
    }
}

#[test]
fn ipv4_network_rejects_prefix_over_32() {
    assert_eq!(
        Ipv4Network::new(addr(10, 0, 0, 0), 33),
        Err(mrbgpdv2::error::ConstructIpv4NetworkError)
    );
}

#[test]
fn update_round_trip_as_set() {
    let m = Message::Update(UpdateMessage {
        withdrawn_routes: vec![],
        path_attributes: vec![
            PathAttribute::Origin(Origin::Incomplete),
            PathAttribute::AsPath(AsPath::AsSet(vec![
                AutonomousSystemNumber(64512),
                AutonomousSystemNumber(64513),
            ])),
            PathAttribute::NextHop(addr(192, 0, 2, 1)),
        ],
        network_layer_reachability_information: vec![net(198, 51, 100, 0, 24)],
    });
    let bytes = m.encode();
    assert_eq!(Message::decode(&bytes).unwrap(), m);
}

#[test]
fn open_skips_optional_parameters() {
    let m = Message::new_open(AutonomousSystemNumber(64512), addr(127, 0, 0, 1));
    let mut bytes = m.encode();
    bytes[16] = 0;
    bytes[17] = 30; // one optional parameter byte follows
    bytes[28] = 1;
    bytes.push(0xAA);
    assert_eq!(Message::decode(&bytes).unwrap(), m);
}

#[test]
fn open_with_wrong_length_rejected() {
    let m = Message::new_open(AutonomousSystemNumber(64512), addr(127, 0, 0, 1));
    let mut bytes = m.encode();
    bytes.push(0xAA); // length field no longer covers the message
    assert_eq!(Message::decode(&bytes), Err(DecodeError::MalformedOpen));
}
