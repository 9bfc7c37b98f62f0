use parity_multiaddr::{Multiaddr, Protocol};
use wormhole::crypto::PrivateKey;
use wormhole::multiaddr::{IpAddress, SocketAddress};
use wormhole::tls::cert_verifier::{PeerCertVerifyError, PeerCertificateVerifierError};
use wormhole::tls::certificate::P2PSelfSignedCertificate;
use wormhole::transport::{
    accept_ready, accepted_remote, can_dial, check_dialed_peer, dial_target, peer_pubkey_of_certs,
    ListenerError, TransportError, RESET_ERR_CODE,
};

#[test]
fn only_quic_socket_addresses_can_be_dialed() {
    let quic: Multiaddr = "/ip4/127.0.0.1/udp/9000/quic".parse().unwrap();
    let tcp: Multiaddr = "/ip4/127.0.0.1/tcp/9000".parse().unwrap();
    let no_port: Multiaddr = "/ip4/127.0.0.1/quic".parse().unwrap();
    assert!(can_dial(&quic));
    assert!(!can_dial(&tcp));
    assert!(!can_dial(&no_port));
}

#[test]
fn dial_target_checks_listening_then_address() {
    let quic: Multiaddr = "/ip4/127.0.0.1/udp/9000/quic".parse().unwrap();
    assert!(matches!(dial_target(false, quic.clone()), Err(TransportError::NoListen)));
    let sock = dial_target(true, quic).ok().unwrap();
    assert_eq!(sock, SocketAddress { ip: IpAddress::V4(0x7f00_0001), port: 9000 });
    let tcp: Multiaddr = "/ip4/127.0.0.1/tcp/9000".parse().unwrap();
    match dial_target(true, tcp.clone()) {
        Err(TransportError::UndialableMultiaddr(m)) => assert_eq!(m, tcp),
        _ => panic!("tcp address accepted"),
    }
    assert_eq!(RESET_ERR_CODE, 0);
}

#[test]
fn dialed_peer_must_be_the_target() {
    let a = PrivateKey::from_slice(&[1u8; 32]).unwrap().pubkey();
    let b = PrivateKey::from_slice(&[2u8; 32]).unwrap().pubkey();
    let got = check_dialed_peer(a.peer_id(), &a).ok().unwrap();
    assert!(got.same(&a.peer_id()));
    match check_dialed_peer(a.peer_id(), &b) {
        Err(TransportError::PeerMismatch { target, connected }) => {
            assert!(target.same(&a.peer_id()));
            assert!(connected.same(&b.peer_id()));
        },
        _ => panic!("mismatch accepted"),
    }
}

#[test]
fn accepted_connection_names_remote_peer() {
    let pk = PrivateKey::from_slice(&[3u8; 32]).unwrap().pubkey();
    let sock = SocketAddress { ip: IpAddress::V4(0x0a00_0001), port: 5 };
    let (id, m) = accepted_remote(sock, &pk);
    assert!(id.same(&pk.peer_id()));
    let parts: Vec<Protocol> = m.iter().collect();
    assert_eq!(parts.len(), 4);
    assert_eq!(parts[1], Protocol::Udp(5));
    assert_eq!(parts[2], Protocol::Quic);
}

#[test]
fn listener_accepts_only_while_open() {
    assert!(accept_ready(true, false).is_ok());
    assert_eq!(accept_ready(false, false), Err(ListenerError::ClosedOrDriverLost));
    assert_eq!(accept_ready(true, true), Err(ListenerError::ClosedOrDriverLost));
}

#[test]
fn peer_key_comes_from_the_single_certificate() {
    let sk = PrivateKey::from_slice(&[8u8; 32]).unwrap();
    let pk = sk.pubkey();
    let der = P2PSelfSignedCertificate::from_host(&sk, &pk).ok().unwrap().serialize_der().ok().unwrap();
    let got = peer_pubkey_of_certs(&vec![der.clone()]).ok().unwrap();
    assert_eq!(got.to_bytes(), pk.to_bytes());
    assert!(matches!(
        peer_pubkey_of_certs(&vec![der.clone(), der]),
        Err(PeerCertVerifyError::Chain(PeerCertificateVerifierError::MoreThanOneCertificate(2)))
    ));
}
