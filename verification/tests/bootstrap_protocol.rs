use parity_multiaddr::Multiaddr;
use wormhole::bootstrap::{
    decode_pairs, decode_peers, encode_ourself, encode_pairs, encode_peers, new_arrived, protocol,
    publish_peers, reads_arrivals, stream_plan, BootstrapError, Event, Mode, StreamPlan,
    PROTO_NAME, PUBLISH_PEERS_MAX,
};
use wormhole::crypto::{PeerId, PrivateKey};
use wormhole::network::{Direction, ProtocolId};
use wormhole::peer_store::simple_store::SimplePeerStore;

fn peer(byte: u8) -> PeerId {
    PrivateKey::from_slice(&[byte; 32]).unwrap().pubkey().peer_id()
}

fn addr(port: u16) -> Multiaddr {
    format!("/ip4/127.0.0.1/udp/{}/quic", port).parse().unwrap()
}

#[test]
fn peer_info_encoding_is_exact() {
    let info = wormhole::bootstrap::PeerInfo { peer_id: vec![1, 2], multiaddr: vec![3] };
    let mut out = Vec::new();
    info.encode_to(&mut out);
    assert_eq!(out, vec![0x0a, 2, 1, 2, 0x12, 1, 3]);
    let list = encode_peers(&vec![info]);
    assert_eq!(list, vec![0x0a, 7, 0x0a, 2, 1, 2, 0x12, 1, 3]);
}

#[test]
fn empty_values_are_left_out() {
    let info = wormhole::bootstrap::PeerInfo { peer_id: vec![], multiaddr: vec![] };
    let mut out = Vec::new();
    info.encode_to(&mut out);
    assert!(out.is_empty());
    assert_eq!(encode_peers(&vec![info]), vec![0x0a, 0]);
    let decoded = decode_peers(&[0x0a, 0]).expect("decodes");
    assert_eq!(decoded.len(), 1);
    assert!(decoded[0].peer_id.is_empty() && decoded[0].multiaddr.is_empty());
}

#[test]
fn published_ourself_decodes_to_our_pair() {
    let id = peer(1);
    let a = addr(4000);
    let msg = encode_ourself(&id, &a);
    let infos = decode_peers(&msg).expect("decodes");
    assert_eq!(infos.len(), 1);
    let pairs = decode_pairs(infos).expect("valid pair");
    assert!(pairs[0].0.same(&id));
    assert_eq!(pairs[0].1, a);
}

#[test]
fn published_pairs_decode_in_order() {
    let pairs = vec![(peer(1), addr(1)), (peer(2), addr(2)), (peer(3), addr(3))];
    let msg = encode_pairs(pairs.clone());
    let back = decode_pairs(decode_peers(&msg).unwrap()).unwrap();
    assert_eq!(back.len(), 3);
    for (x, y) in back.iter().zip(pairs.iter()) {
        assert!(x.0.same(&y.0));
        assert_eq!(x.1, y.1);
    }
}

#[test]
fn decoding_skips_unknown_fields_and_keeps_the_last_value() {
    // field 3 (unknown varint), then peer_id twice: the second one counts
    let inner = vec![0x18, 5, 0x0a, 1, 9, 0x0a, 1, 8, 0x12, 1, 7];
    let mut msg = vec![0x0a, inner.len() as u8];
    msg.extend_from_slice(&inner);
    msg.extend_from_slice(&[0x10, 1]);
    let infos = decode_peers(&msg).expect("decodes");
    assert_eq!(infos.len(), 1);
    assert_eq!(infos[0].peer_id, vec![8]);
    assert_eq!(infos[0].multiaddr, vec![7]);
}

#[test]
fn decoding_skips_unknown_groups_but_not_known_ones() {
    // an unknown group 3 inside the list, then one peer
    let msg = vec![0x1b, 0x08, 0x01, 0x1c, 0x0a, 3, 0x0a, 1, 9];
    let infos = decode_peers(&msg).expect("decodes");
    assert_eq!(infos.len(), 1);
    assert_eq!(infos[0].peer_id, vec![9]);
    // field 1 as a group
    assert!(decode_peers(&[0x0b, 0x0c]).is_none());
}

#[test]
fn decoding_refuses_wrong_wire_types() {
    assert!(decode_peers(&[0x08, 1]).is_none());
    assert!(decode_peers(&[0x0a, 2, 0x08, 1]).is_none());
    assert!(decode_peers(&[0x0a, 5, 1]).is_none());
}

#[test]
fn new_arrived_without_message() {
    let mut store = SimplePeerStore::new();
    assert_eq!(new_arrived(&mut store, None), Err(BootstrapError::NoNewArrive));
}

#[test]
fn new_arrived_with_malformed_message() {
    let mut store = SimplePeerStore::new();
    assert_eq!(new_arrived(&mut store, Some(&[0xffu8][..])), Err(BootstrapError::DecodeNewArrived));
}

#[test]
fn new_arrived_with_bad_peer_id_or_address() {
    let mut store = SimplePeerStore::new();
    let bad_id = encode_peers(&vec![wormhole::bootstrap::PeerInfo { peer_id: vec![1, 2, 3], multiaddr: addr(1).to_vec() }]);
    assert_eq!(new_arrived(&mut store, Some(bad_id.as_slice())), Err(BootstrapError::DecodePeerId));
    let bad_addr = encode_peers(&vec![wormhole::bootstrap::PeerInfo {
        peer_id: peer(1).as_slice().to_vec(),
        multiaddr: vec![0xff, 0xff],
    }]);
    assert_eq!(new_arrived(&mut store, Some(bad_addr.as_slice())), Err(BootstrapError::DecodeMultiaddr));
    assert!(!store.contains(&peer(1)));
}

#[test]
fn new_arrived_registers_every_pair() {
    let mut store = SimplePeerStore::new();
    let msg = encode_pairs(vec![(peer(1), addr(1)), (peer(2), addr(2))]);
    assert_eq!(new_arrived(&mut store, Some(msg.as_slice())), Ok(Event::NewArrived));
    assert!(store.contains(&peer(1)));
    assert!(store.contains(&peer(2)));
    assert_eq!(store.get_multiaddrs(&peer(2)).unwrap(), vec![addr(2)]);
}

#[test]
fn publisher_peers_reach_subscriber() {
    let mut publisher = SimplePeerStore::new();
    publisher.register_peers(vec![(peer(1), addr(1)), (peer(2), addr(2))]);
    let msg = publish_peers(&publisher);
    let mut subscriber = SimplePeerStore::new();
    assert_eq!(new_arrived(&mut subscriber, Some(msg.as_slice())), Ok(Event::NewArrived));
    assert!(subscriber.contains(&peer(1)));
    assert!(subscriber.contains(&peer(2)));
    assert_eq!(PUBLISH_PEERS_MAX, 40);
}

#[test]
fn stream_plans_by_mode_and_direction() {
    assert_eq!(stream_plan(Mode::Publisher, Direction::Inbound), StreamPlan::PublishPeers);
    assert_eq!(stream_plan(Mode::Publisher, Direction::Outbound), StreamPlan::Reset);
    assert_eq!(stream_plan(Mode::Subscriber, Direction::Outbound), StreamPlan::PublishOurself);
    assert_eq!(stream_plan(Mode::Subscriber, Direction::Inbound), StreamPlan::Reset);
    assert!(reads_arrivals(StreamPlan::PublishPeers));
    assert!(!reads_arrivals(StreamPlan::Reset));
}

#[test]
fn bootstrap_protocol_name_and_labels() {
    let p = protocol(ProtocolId::new(3));
    assert_eq!(p.id().value(), 3);
    assert_eq!(p.name(), "/bootstrap/1.0");
    assert_eq!(PROTO_NAME, "/bootstrap/1.0");
    assert_eq!(Mode::Publisher.label(), "publisher mode");
    assert_eq!(Mode::Subscriber.label(), "subscriber mode");
    assert_eq!(Event::NewArrived.label(), "got new peer info from bootstrap peer");
}

#[test]
fn published_pair_is_read_back_unchanged() {
    let id = peer(31);
    let a = addr(4100);
    let info = wormhole::bootstrap::PeerInfo::new((id.clone(), a.clone()));
    let mut out = Vec::new();
    info.encode_to(&mut out);
    let back = wormhole::bootstrap::PeerInfo::decode(&out).expect("decodes");
    let (p, m) = back.into_pair().ok().expect("a pair");
    assert!(p.same(&id));
    assert_eq!(m, a);
}
