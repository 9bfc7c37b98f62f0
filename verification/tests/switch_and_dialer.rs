use parity_multiaddr::Multiaddr;
use wormhole::crypto::{PeerId, PrivateKey, PublicKey};
use wormhole::host::switch::{DefaultSwitch, MatchProtocol, OfferProtocol, PrefixMatch, SwitchError};
use wormhole::host::HostError;
use wormhole::network::conn_pool::NetworkConnPool;
use wormhole::network::dialer::{check_listen, DialPlan, DialerError, NetworkDialer, NetworkError};
use wormhole::network::{Connectedness, Protocol, ProtocolId};
use wormhole::peer_store::PeerStore;

fn key(byte: u8) -> PublicKey {
    PrivateKey::from_slice(&[byte; 32]).unwrap().pubkey()
}

fn id(byte: u8) -> PeerId {
    key(byte).peer_id()
}

fn addr(port: u16) -> Multiaddr {
    format!("/ip4/10.0.0.9/udp/{}/quic", port).parse().unwrap()
}

fn switch() -> DefaultSwitch<&'static str, PrefixMatch> {
    let mut s = DefaultSwitch::default();
    s.add_handler(Protocol::new(1, "/echo/1.0"), "echo");
    s.add_match_handler(Protocol::new(2, "/chat/1.0"), PrefixMatch { prefix: "/chat/".to_string() }, "chat");
    s
}

#[test]
fn prefix_matcher_accepts_names_that_begin_with_it() {
    let m = PrefixMatch { prefix: "/chat/".to_string() };
    assert!(m.match_name("/chat/1.0"));
    assert!(m.match_name("/chat/"));
    assert!(!m.match_name("/chat"));
    assert!(!m.match_name("/echo/1.0"));
    assert!(PrefixMatch { prefix: String::new() }.match_name("anything"));
}

#[test]
fn offers_match_by_id_name_or_matcher() {
    let s = switch();
    assert_eq!(s.len(), 2);
    let by_id = s.negotiate_offer(&vec![OfferProtocol::Id(2)]).ok().unwrap();
    assert_eq!(by_id.handler, "chat");
    let by_name = s.negotiate_offer(&vec![OfferProtocol::Name("/echo/1.0".to_string())]).ok().unwrap();
    assert_eq!(by_name.handler, "echo");
    let by_match = s.negotiate_offer(&vec![OfferProtocol::Name("/chat/2.0".to_string())]).ok().unwrap();
    assert_eq!(by_match.proto.id.value(), 2);
}

#[test]
fn first_offered_protocol_that_matches_wins() {
    let s = switch();
    let offers = vec![
        OfferProtocol::Id(9),
        OfferProtocol::Name("/echo/1.0".to_string()),
        OfferProtocol::Id(2),
    ];
    assert_eq!(s.match_protocol(&offers).unwrap().handler, "echo");
}

#[test]
fn empty_or_unmatched_offers_are_refused() {
    let s = switch();
    assert!(matches!(s.negotiate_offer(&vec![]), Err(SwitchError::EmptyOffer)));
    assert!(matches!(
        s.negotiate_offer(&vec![OfferProtocol::Id(5), OfferProtocol::Name("/x".to_string())]),
        Err(SwitchError::NoProtocolMatch)
    ));
    let _ = HostError::NoProtocolUse;
}

#[test]
fn registration_replaces_and_removal_forgets() {
    let mut s = switch();
    s.add_handler(Protocol::new(1, "/echo/2.0"), "echo2");
    assert_eq!(s.len(), 2);
    assert_eq!(s.negotiate_offer(&vec![OfferProtocol::Id(1)]).ok().unwrap().handler, "echo2");
    assert!(s.negotiate_offer(&vec![OfferProtocol::Name("/echo/1.0".to_string())]).is_err());
    s.remove_handler(ProtocolId::new(1));
    assert_eq!(s.len(), 1);
    assert!(matches!(s.negotiate_offer(&vec![OfferProtocol::Id(1)]), Err(SwitchError::NoProtocolMatch)));
    s.remove_handler(ProtocolId::new(1));
    assert_eq!(s.len(), 1);
}

#[test]
fn pool_keeps_one_connection_per_peer() {
    let mut pool: NetworkConnPool<u32> = NetworkConnPool::new();
    pool.insert(id(1), 10);
    pool.insert(id(1), 11);
    pool.insert(id(2), 20);
    assert_eq!(pool.conn_to_peer(&id(1)), Some(10));
    assert_eq!(pool.peers().len(), 2);
    let mut conns = pool.conns();
    conns.sort();
    assert_eq!(conns, vec![10, 20]);
    assert_eq!(pool.take(&id(1)), Some(10));
    assert_eq!(pool.take(&id(1)), None);
    let drained = pool.drain();
    assert_eq!(drained.len(), 1);
    assert!(drained[0].0.same(&id(2)) && drained[0].1 == 20);
    assert!(pool.peers().is_empty());
}

#[test]
fn dialing_reuses_dials_or_fails() {
    let mut store = PeerStore::new();
    store.set_multiaddr(&id(2), addr(2));
    let mut dialer: NetworkDialer<u32> = NetworkDialer::new(store, NetworkConnPool::new());

    assert!(matches!(dialer.plan_dial(&id(3)), Err(DialerError::NoAddress(ref p)) if p.same(&id(3))));
    match dialer.plan_dial(&id(2)) {
        Ok(DialPlan::Dial(a)) => assert_eq!(a, addr(2)),
        _ => panic!("expected a dial"),
    }
    dialer.dialed(&id(2), 7);
    assert_eq!(dialer.connectedness(&id(2)), Connectedness::Connected);
    assert!(matches!(dialer.plan_dial(&id(2)), Ok(DialPlan::Reuse(7))));
    assert_eq!(dialer.conn_to_peer(&id(2)), Some(7));
    assert_eq!(dialer.peers().len(), 1);
    assert_eq!(dialer.conns(), vec![7]);
}

#[test]
fn closing_a_peer_releases_it() {
    let mut dialer: NetworkDialer<u32> = NetworkDialer::new(PeerStore::new(), NetworkConnPool::new());
    dialer.accept_inbound(&id(4), key(4), addr(4), 40);
    assert_eq!(dialer.connectedness(&id(4)), Connectedness::Connected);
    assert_eq!(dialer.peer_store().get_multiaddrs(&id(4)).unwrap(), vec![addr(4)]);
    assert_eq!(dialer.close_peer(&id(4)), Some(40));
    assert_eq!(dialer.connectedness(&id(4)), Connectedness::CanConnect);
    assert_eq!(dialer.close_peer(&id(4)), None);
    assert_eq!(dialer.connectedness(&id(4)), Connectedness::CanConnect);
}

#[test]
fn accepting_a_known_peer_adds_its_address() {
    let mut store = PeerStore::new();
    store.set_multiaddr(&id(5), addr(1));
    let mut dialer: NetworkDialer<u32> = NetworkDialer::new(store, NetworkConnPool::new());
    dialer.accept_inbound(&id(5), key(5), addr(2), 50);
    assert_eq!(dialer.peer_store().get_multiaddrs(&id(5)).unwrap().len(), 2);
    assert_eq!(dialer.connectedness(&id(5)), Connectedness::Connected);
    assert_eq!(dialer.inbound_closed(&id(5)), Some(50));
    assert_eq!(dialer.connectedness(&id(5)), Connectedness::Connected);
}

#[test]
fn closing_the_dialer_drains_and_releases_all() {
    let mut dialer: NetworkDialer<u32> = NetworkDialer::new(PeerStore::new(), NetworkConnPool::new());
    dialer.dialed(&id(6), 60);
    dialer.accept_inbound(&id(7), key(7), addr(7), 70);
    let mut closed: Vec<u32> = dialer.close().into_iter().map(|(_, c)| c).collect();
    closed.sort();
    assert_eq!(closed, vec![60, 70]);
    assert!(dialer.peers().is_empty());
    assert_eq!(dialer.connectedness(&id(7)), Connectedness::CanConnect);
}

#[test]
fn listening_twice_is_refused() {
    assert!(check_listen(None).is_ok());
    let a = addr(1);
    match check_listen(Some(&a)) {
        Err(NetworkError::AlreadyListen(b)) => assert_eq!(b, a),
        _ => panic!("second listen accepted"),
    }
}

#[test]
fn address_given_before_connecting_is_dialed() {
    let mut dialer: NetworkDialer<u32> = NetworkDialer::new(PeerStore::new(), NetworkConnPool::new());
    assert!(dialer.plan_dial(&id(8)).is_err());
    dialer.add_peer_addr(&id(8), addr(8));
    match dialer.plan_dial(&id(8)) {
        Ok(DialPlan::Dial(a)) => assert_eq!(a, addr(8)),
        _ => panic!("expected a dial"),
    }
    assert_eq!(dialer.connectedness(&id(8)), Connectedness::NotConnected);
}

#[test]
fn earliest_registration_answers_a_name_two_accept() {
    let mut s: DefaultSwitch<&'static str, PrefixMatch> = DefaultSwitch::default();
    s.add_match_handler(Protocol::new(7, "/any"), PrefixMatch { prefix: "/".to_string() }, "catch-all");
    s.add_handler(Protocol::new(3, "/echo/1.0"), "echo");
    let offers = vec![OfferProtocol::Name("/echo/1.0".to_string())];
    assert_eq!(s.match_protocol(&offers).unwrap().proto.id.value(), 7);
    assert_eq!(s.negotiate_offer(&offers).ok().unwrap().handler, "catch-all");
    // Re-registering keeps the original place in the order.
    s.add_handler(Protocol::new(7, "/any"), "plain");
    assert_eq!(s.negotiate_offer(&offers).ok().unwrap().handler, "echo");
}
