use parity_multiaddr::{Multiaddr, Protocol};
use wormhole::crypto::PrivateKey;
use wormhole::multiaddr::{IpAddress, MultiaddrExt, SocketAddress};

fn v4(a: u8, b: u8, c: u8, d: u8) -> IpAddress {
    IpAddress::V4(u32::from_be_bytes([a, b, c, d]))
}

#[test]
fn quic_address_of_socket_address() {
    let sock = SocketAddress { ip: v4(127, 0, 0, 1), port: 4433 };
    let m = Multiaddr::quic_from_sock_addr(sock);
    let expected: Multiaddr = "/ip4/127.0.0.1/udp/4433/quic".parse().unwrap();
    assert_eq!(m, expected);
    assert_eq!(m.to_socket_addr(), sock);
    assert!(m.contains_socket_addr());
    assert!(m.is_quic());
}

#[test]
fn quic_address_with_ipv6() {
    let sock = SocketAddress { ip: IpAddress::V6(1), port: 9 };
    let m = Multiaddr::quic_from_sock_addr(sock);
    let expected: Multiaddr = "/ip6/::1/udp/9/quic".parse().unwrap();
    assert_eq!(m, expected);
    assert_eq!(m.to_socket_addr(), sock);
}

#[test]
fn quic_peer_address_appends_identity() {
    let pk = PrivateKey::from_slice(&[3u8; 32]).unwrap().pubkey();
    let id = pk.peer_id();
    let sock = SocketAddress { ip: v4(10, 0, 0, 2), port: 1 };
    let m = Multiaddr::quic_peer(sock, id.clone());
    let last = m.iter().last().unwrap();
    match last {
        Protocol::P2p(h) => assert_eq!(h.as_bytes(), id.as_slice()),
        other => panic!("unexpected component {:?}", other),
    }
    assert_eq!(m.to_socket_addr(), sock);
}

#[test]
fn push_peer_id_appends_p2p_component() {
    let id = PrivateKey::from_slice(&[4u8; 32]).unwrap().pubkey().peer_id();
    let mut m: Multiaddr = "/ip4/1.2.3.4/udp/5/quic".parse().unwrap();
    m.push_peer_id(id.clone());
    assert_eq!(m.iter().count(), 4);
    assert!(m.is_quic());
}

#[test]
fn socket_address_takes_last_ip_and_last_udp_port() {
    let m: Multiaddr = "/ip4/1.1.1.1/udp/1/ip4/2.2.2.2/udp/2".parse().unwrap();
    assert_eq!(m.to_socket_addr(), SocketAddress { ip: v4(2, 2, 2, 2), port: 2 });
}

#[test]
fn socket_address_presence_counts_tcp_ports() {
    let tcp: Multiaddr = "/ip4/1.1.1.1/tcp/80".parse().unwrap();
    assert!(tcp.contains_socket_addr());
    assert!(!tcp.is_quic());
    let ip_only: Multiaddr = "/ip4/1.1.1.1".parse().unwrap();
    assert!(!ip_only.contains_socket_addr());
    let port_only: Multiaddr = "/udp/1/quic".parse().unwrap();
    assert!(!port_only.contains_socket_addr());
    assert!(port_only.is_quic());
}
