use parity_multiaddr::Multiaddr;
use wormhole::crypto::{PeerId, PrivateKey, PublicKey};
use wormhole::network::Connectedness;
use wormhole::peer_store::simple_store::{SimplePeerStore, SimplePeerStoreError};
use wormhole::peer_store::{PeerInfo, PeerStore, PeerStoreError};

fn key(byte: u8) -> PublicKey {
    PrivateKey::from_slice(&[byte; 32]).unwrap().pubkey()
}

fn id(byte: u8) -> PeerId {
    key(byte).peer_id()
}

fn addr(port: u16) -> Multiaddr {
    format!("/ip4/10.0.0.1/udp/{}/quic", port).parse().unwrap()
}

#[test]
fn peer_info_constructors() {
    let info = PeerInfo::with_all(key(1), Connectedness::Connected, addr(1));
    assert!(info.peer_id().same(&id(1)));
    assert_eq!(info.connectedness(), Connectedness::Connected);
    assert_eq!(info.pubkey().unwrap().to_bytes(), key(1).to_bytes());
    assert_eq!(info.multiaddrs(), vec![addr(1)]);
    assert_eq!(info.into_multiaddr(), Some(addr(1)));

    let bare = PeerInfo::new(id(2));
    assert_eq!(bare.connectedness(), Connectedness::NotConnected);
    assert!(bare.pubkey().is_none());
    assert!(bare.into_multiaddr().is_none());
}

#[test]
fn peer_info_addresses_are_a_set() {
    let mut info = PeerInfo::with_addr(id(3), addr(1));
    info.add_multiaddr(addr(2));
    info.add_multiaddr(addr(1));
    let mut got = info.multiaddrs();
    got.sort_by_key(|m| m.to_vec());
    let mut want = vec![addr(1), addr(2)];
    want.sort_by_key(|m| m.to_vec());
    assert_eq!(got, want);
}

#[test]
fn peer_info_takes_only_its_own_key() {
    let mut info = PeerInfo::new(id(4));
    match info.set_pubkey(key(5)) {
        Err(SimplePeerStoreError::PeerIdNotMatchPubKey { peer_id, pubkey }) => {
            assert!(peer_id.same(&id(4)));
            assert_eq!(pubkey.to_bytes(), key(5).to_bytes());
        },
        Ok(()) => panic!("foreign key accepted"),
    }
    assert!(info.pubkey().is_none());
    assert!(info.set_pubkey(key(4)).is_ok());
    assert_eq!(info.pubkey().unwrap().to_bytes(), key(4).to_bytes());
}

#[test]
fn peer_store_register_and_lookup() {
    let mut store = PeerStore::default();
    assert!(!store.contains(&id(1)));
    assert_eq!(store.get_connectedness(&id(1)), Connectedness::NotConnected);
    assert!(store.get_multiaddrs(&id(1)).is_none());
    store.register(PeerInfo::with_all(key(1), Connectedness::Connected, addr(1)));
    assert!(store.contains(&id(1)));
    assert_eq!(store.get_connectedness(&id(1)), Connectedness::Connected);
    assert_eq!(store.get_multiaddrs(&id(1)).unwrap(), vec![addr(1)]);
    // a second registration of a known peer changes nothing
    store.register(PeerInfo::with_addr(id(1), addr(2)));
    assert_eq!(store.get_multiaddrs(&id(1)).unwrap(), vec![addr(1)]);
}

#[test]
fn peer_store_set_connectedness_of_unknown_peer_adds_it_not_connected() {
    let mut store = PeerStore::new();
    store.set_connectedness(&id(2), Connectedness::Connected);
    assert!(store.contains(&id(2)));
    assert_eq!(store.get_connectedness(&id(2)), Connectedness::NotConnected);
    store.set_connectedness(&id(2), Connectedness::Connecting);
    assert_eq!(store.get_connectedness(&id(2)), Connectedness::Connecting);
}

#[test]
fn peer_store_set_pubkey_checks_the_identity() {
    let mut store = PeerStore::new();
    assert!(matches!(store.set_pubkey(&id(1), key(2)), Err(PeerStoreError::PeerIdNotMatchPubKey { .. })));
    assert!(!store.contains(&id(1)));
    assert!(store.set_pubkey(&id(1), key(1)).is_ok());
    assert_eq!(store.get_pubkey(&id(1)).unwrap().to_bytes(), key(1).to_bytes());
}

#[test]
fn peer_store_set_multiaddr_adds_addresses() {
    let mut store = PeerStore::new();
    store.set_multiaddr(&id(3), addr(7));
    store.set_multiaddr(&id(3), addr(8));
    let addrs = store.get_multiaddrs(&id(3)).unwrap();
    assert_eq!(addrs.len(), 2);
    assert!(addrs.contains(&addr(7)) && addrs.contains(&addr(8)));
}

#[test]
fn choose_takes_at_most_size_peers_with_addresses() {
    let mut store = PeerStore::new();
    store.set_multiaddr(&id(1), addr(1));
    store.set_multiaddr(&id(2), addr(2));
    store.set_connectedness(&id(3), Connectedness::Connected);
    let all = store.choose_peers(10);
    assert_eq!(all.len(), 2);
    assert_eq!(store.choose_peers(1).len(), 1);
    assert!(store.choose_peers(0).is_empty());
}

#[test]
fn simple_store_keeps_first_registration() {
    let mut store = SimplePeerStore::default();
    store.register_peers(vec![(id(1), addr(1)), (id(1), addr(2)), (id(2), addr(3))]);
    assert_eq!(store.get_multiaddrs(&id(1)).unwrap(), vec![addr(1)]);
    assert_eq!(store.choose_peers(40).len(), 2);
    store.add_multiaddr(&id(1), addr(2));
    assert_eq!(store.get_multiaddrs(&id(1)).unwrap().len(), 2);
}

#[test]
fn simple_store_set_pubkey_only_adds_unknown_peers() {
    let mut store = SimplePeerStore::new();
    store.set_pubkey(&id(1), key(2));
    assert!(!store.contains(&id(1)));
    store.set_pubkey(&id(1), key(1));
    assert_eq!(store.get_pubkey(&id(1)).unwrap().to_bytes(), key(1).to_bytes());
    store.set_connectedness(&id(1), Connectedness::Connected);
    assert_eq!(store.get_connectedness(&id(1)), Connectedness::Connected);
}
