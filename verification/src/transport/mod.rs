//! The QUIC transport's decisions: which addresses can be dialed, what a
//! dial checks before and after the handshake, and how an accepted
//! connection names its remote side.
use vstd::prelude::*;

use crate::crypto::{peer_id_of, PeerId, PublicKey};
use crate::multiaddr::{
    components, has_socket_addr, quic_components, spec_contains_socket_addr, spec_is_quic,
    spec_socket_addr, Component, MultiaddrExt, SocketAddress,
};
use crate::tls::cert_verifier::{PeerCertVerifyError, PeerCertVerifyErrorView, PeerCertificateVerifierError, certs_view};
use crate::tls::certificate::{spec_cert_peer_key, x509_parsed, P2PSelfSignedCertificate};
use parity_multiaddr::Multiaddr;

verus! {

/// The application error code sent when a stream is reset.
pub const RESET_ERR_CODE: u32 = 0;

/// A stream of a multiplexed connection. Reading, writing and closing it
/// are I/O that its owner performs; the library only asks to reset it.
pub trait MuxedStream {
    /// Abandons the stream, telling the remote side with `RESET_ERR_CODE`.
    fn reset(&mut self);
}

/// Why a listener cannot hand out another connection.
#[derive(Debug, PartialEq, Eq, Clone, Copy, Structural)]
pub enum ListenerError {
    ClosedOrDriverLost,
}

/// Why dialing failed.
pub enum TransportError {
    /// The transport does not listen on any socket address, so it has no
    /// endpoint to dial from.
    NoListen,
    /// The transport cannot dial this address.
    UndialableMultiaddr(Multiaddr),
    /// The peer that answered is not the peer that was dialed.
    PeerMismatch { target: PeerId, connected: PeerId },
}

/// Whether the transport can dial an address: it holds an IP address and a
/// port, and names QUIC.
pub open spec fn spec_can_dial(cs: Seq<Component>) -> bool {
    spec_contains_socket_addr(cs) && spec_is_quic(cs)
}

/// Whether the transport can dial `raddr`: it holds an IP address and a
/// port, and names QUIC.
pub fn can_dial(raddr: &Multiaddr) -> (r: bool)
    ensures
        r == spec_can_dial(components(*raddr)),
        r == (spec_contains_socket_addr(components(*raddr)) && spec_is_quic(components(*raddr))),
{
    raddr.contains_socket_addr() && raddr.is_quic()
}

/// The socket address to dial for `raddr`: fails with `NoListen` when the
/// transport has no endpoint, and with `UndialableMultiaddr` when it cannot
/// dial the address. A dialable address must hold a UDP port.
pub fn dial_target(listening: bool, raddr: Multiaddr) -> (r: Result<SocketAddress, TransportError>)
    requires
        listening && spec_can_dial(components(raddr)) ==> has_socket_addr(components(raddr)),
    ensures
        !listening ==> r matches Err(TransportError::NoListen),
        listening && !spec_can_dial(components(raddr)) ==> r == Err::<SocketAddress, TransportError>(
            TransportError::UndialableMultiaddr(raddr),
        ),
        listening && spec_can_dial(components(raddr)) ==> r == Ok::<SocketAddress, TransportError>(
            spec_socket_addr(components(raddr)),
        ),
        listening && spec_contains_socket_addr(components(raddr)) && spec_is_quic(components(raddr)) ==> r
            == Ok::<SocketAddress, TransportError>(spec_socket_addr(components(raddr))),
{
    if !listening {
        return Err(TransportError::NoListen);
    }
    if !can_dial(&raddr) {
        return Err(TransportError::UndialableMultiaddr(raddr));
    }
    Ok(raddr.to_socket_addr())
}

/// The QUIC address of any socket address, IPv4 or IPv6, with or without a
/// peer identity after it, can be dialed, and dialing it targets that
/// socket address.
pub proof fn lemma_quic_addresses_are_dialable(sock: SocketAddress, peer: Seq<u8>)
    ensures
        spec_can_dial(quic_components(sock)),
        has_socket_addr(quic_components(sock)),
        spec_socket_addr(quic_components(sock)) == sock,
        spec_can_dial(quic_components(sock).push(Component::P2p(peer))),
        spec_socket_addr(quic_components(sock).push(Component::P2p(peer))) == sock,
{
    crate::multiaddr::lemma_quic_address_roundtrip(sock, peer);
}

/// Checks that the peer that answered a dial is the dialed peer: its
/// identity, derived from the key it presented, is returned; otherwise the
/// error names both.
pub fn check_dialed_peer(target: PeerId, remote_pubkey: &PublicKey) -> (r: Result<PeerId, TransportError>)
    ensures
        r is Ok <==> target@ == peer_id_of(remote_pubkey@),
        r matches Ok(p) ==> p@ == target@,
        r matches Err(e) ==> (e matches TransportError::PeerMismatch { target: t, connected: c }
            && t@ == target@ && c@ == peer_id_of(remote_pubkey@)),
{
    let connected = remote_pubkey.peer_id();
    if !connected.same(&target) {
        return Err(TransportError::PeerMismatch { target, connected });
    }
    Ok(connected)
}

/// The host key of a peer that presented a chain of DER certificates: the
/// chain holds one certificate, whose libp2p extension names the key.
pub open spec fn spec_peer_pubkey(certs: Seq<Seq<u8>>) -> Result<Seq<u8>, PeerCertVerifyErrorView> {
    if certs.len() > 1 {
        Err(PeerCertVerifyErrorView::Chain(
            PeerCertificateVerifierError::MoreThanOneCertificate(certs.len() as usize),
        ))
    } else {
        match spec_cert_peer_key(x509_parsed(certs[0])) {
            Ok(k) => Ok(k),
            Err(e) => Err(PeerCertVerifyErrorView::Certificate(e)),
        }
    }
}

/// The host key of a peer that presented a (non-empty) chain of DER
/// certificates: fails if the chain holds more than one certificate, or if
/// its certificate names no valid key.
pub fn peer_pubkey_of_certs(certs: &Vec<Vec<u8>>) -> (r: Result<PublicKey, PeerCertVerifyError>)
    requires
        certs@.len() >= 1,
    ensures
        match spec_peer_pubkey(certs_view(certs@)) {
            Ok(k) => r matches Ok(rk) && rk@ == k,
            Err(e) => r matches Err(re) && re@ == e,
        },
{
    if certs.len() > 1 {
        return Err(
            PeerCertVerifyError::Chain(
                PeerCertificateVerifierError::MoreThanOneCertificate(certs.len()),
            ),
        );
    }
    match P2PSelfSignedCertificate::recover_peer_pubkey(certs[0].as_slice()) {
        Ok(k) => Ok(k),
        Err(e) => Err(PeerCertVerifyError::Certificate(e)),
    }
}

/// The identity and the address of the remote side of an accepted
/// connection: the identity derived from the key it presented, and its QUIC
/// address with that identity appended.
pub fn accepted_remote(remote_addr: SocketAddress, remote_pubkey: &PublicKey) -> (r: (PeerId, Multiaddr))
    ensures
        r.0@ == peer_id_of(remote_pubkey@),
        components(r.1) == quic_components(remote_addr).push(Component::P2p(peer_id_of(remote_pubkey@))),
{
    let peer_id = remote_pubkey.peer_id();
    let maddr = Multiaddr::quic_peer(remote_addr, peer_id.clone());
    (peer_id, maddr)
}

/// What a listener does when asked for the next connection: fails with
/// `ClosedOrDriverLost` once it is closed or its incoming connections end.
pub fn accept_ready(open: bool, incoming_ended: bool) -> (r: Result<(), ListenerError>)
    ensures
        r is Ok <==> open && !incoming_ended,
        r matches Err(e) ==> e == ListenerError::ClosedOrDriverLost,
{
    if !open || incoming_ended {
        return Err(ListenerError::ClosedOrDriverLost);
    }
    Ok(())
}

} // verus!
