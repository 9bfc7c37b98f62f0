//! Multiaddresses: reading the socket address and the transport out of an
//! address, and building QUIC addresses.
//!
//! A multiaddress stays the value of the `parity-multiaddr` crate; what the
//! logic reads of it is the sequence of its protocol components.
use vstd::prelude::*;

use crate::crypto::{multihash_bytes, PeerId};
pub use parity_multiaddr::Multiaddr;
use parity_multiaddr::Protocol as AddrProtocol;
use std::convert::TryFrom;

verus! {

#[verifier::external_type_specification]
#[verifier::external_body]
pub struct ExMultiaddr(parity_multiaddr::Multiaddr);

/// One protocol component of a multiaddress, as the logic reads it.
pub enum Component {
    Ip4(u32),
    Ip6(u128),
    Tcp(u16),
    Udp(u16),
    Quic,
    /// A peer identity, by the bytes of its multihash.
    P2p(Seq<u8>),
    /// Any other protocol.
    Other,
}

/// One protocol component of a multiaddress.
pub enum AddrComponent {
    Ip4(u32),
    Ip6(u128),
    Tcp(u16),
    Udp(u16),
    Quic,
    P2p(Vec<u8>),
    Other,
}

impl View for AddrComponent {
    type V = Component;

    open spec fn view(&self) -> Component {
        match self {
            AddrComponent::Ip4(a) => Component::Ip4(*a),
            AddrComponent::Ip6(a) => Component::Ip6(*a),
            AddrComponent::Tcp(p) => Component::Tcp(*p),
            AddrComponent::Udp(p) => Component::Udp(*p),
            AddrComponent::Quic => Component::Quic,
            AddrComponent::P2p(h) => Component::P2p(h@),
            AddrComponent::Other => Component::Other,
        }
    }
}

/// What a multiaddress holds: its byte representation.
pub uninterp spec fn multiaddr_bytes(m: Multiaddr) -> Seq<u8>;

/// The components that `Multiaddr::iter` yields for a multiaddress with
/// these bytes.
pub uninterp spec fn multiaddr_components(bytes: Seq<u8>) -> Seq<Component>;

/// Whether `Multiaddr::try_from` accepts these bytes.
pub uninterp spec fn multiaddr_accepts(bytes: Seq<u8>) -> bool;

/// The components of a multiaddress.
pub open spec fn components(m: Multiaddr) -> Seq<Component> {
    multiaddr_components(multiaddr_bytes(m))
}

/// `Multiaddr::iter`, each component read as the logic reads it.
#[verifier::external_body]
fn multiaddr_iter(m: &Multiaddr) -> (r: Vec<AddrComponent>)
    ensures
        r@.map_values(|c: AddrComponent| c@) == multiaddr_components(multiaddr_bytes(*m)),
{
    m.iter().map(|p| match p {
        AddrProtocol::Ip4(a) => AddrComponent::Ip4(u32::from(a)),
        AddrProtocol::Ip6(a) => AddrComponent::Ip6(u128::from(a)),
        AddrProtocol::Tcp(p) => AddrComponent::Tcp(p),
        AddrProtocol::Udp(p) => AddrComponent::Udp(p),
        AddrProtocol::Quic => AddrComponent::Quic,
        AddrProtocol::P2p(h) => AddrComponent::P2p(h.into_bytes()),
        _ => AddrComponent::Other,
    }).collect()
}

/// `Multiaddr::from(Protocol::Ip4(..))`: the address of one `ip4` component.
#[verifier::external_body]
fn multiaddr_from_ip4(a: u32) -> (r: Multiaddr)
    ensures
        multiaddr_components(multiaddr_bytes(r)) == seq![Component::Ip4(a)],
{
    Multiaddr::from(AddrProtocol::Ip4(a.into()))
}

/// `Multiaddr::from(Protocol::Ip6(..))`: the address of one `ip6` component.
#[verifier::external_body]
fn multiaddr_from_ip6(a: u128) -> (r: Multiaddr)
    ensures
        multiaddr_components(multiaddr_bytes(r)) == seq![Component::Ip6(a)],
{
    Multiaddr::from(AddrProtocol::Ip6(a.into()))
}

/// `Multiaddr::push(Protocol::Udp(port))`: appends a `udp` component.
#[verifier::external_body]
fn multiaddr_push_udp(m: &mut Multiaddr, port: u16)
    ensures
        multiaddr_components(multiaddr_bytes(*final(m))) == multiaddr_components(multiaddr_bytes(*old(m))).push(Component::Udp(port)),
{
    m.push(AddrProtocol::Udp(port))
}

/// `Multiaddr::push(Protocol::Quic)`: appends a `quic` component.
#[verifier::external_body]
fn multiaddr_push_quic(m: &mut Multiaddr)
    ensures
        multiaddr_components(multiaddr_bytes(*final(m))) == multiaddr_components(multiaddr_bytes(*old(m))).push(Component::Quic),
{
    m.push(AddrProtocol::Quic)
}

/// `Multiaddr::push(Protocol::P2p(hash))`: appends a `p2p` component.
#[verifier::external_body]
fn multiaddr_push_p2p(m: &mut Multiaddr, hash: crate::crypto::Multihash)
    ensures
        multiaddr_components(multiaddr_bytes(*final(m))) == multiaddr_components(multiaddr_bytes(*old(m))).push(Component::P2p(multihash_bytes(hash))),
{
    m.push(AddrProtocol::P2p(hash))
}

/// `Multiaddr::clone`: the same bytes.
#[verifier::external_body]
pub(crate) fn multiaddr_clone(m: &Multiaddr) -> (r: Multiaddr)
    ensures
        multiaddr_bytes(r) == multiaddr_bytes(*m),
{
    m.clone()
}

/// `Multiaddr == Multiaddr`: equality of the byte representations.
#[verifier::external_body]
pub(crate) fn multiaddr_eq(a: &Multiaddr, b: &Multiaddr) -> (r: bool)
    ensures
        r == (multiaddr_bytes(*a) == multiaddr_bytes(*b)),
{
    a == b
}

/// `Multiaddr::to_vec`: the byte representation, which the parser accepts
/// (every constructor of a `Multiaddr` writes or checks whole protocols).
#[verifier::external_body]
pub(crate) fn multiaddr_to_vec(m: &Multiaddr) -> (r: Vec<u8>)
    ensures
        r@ == multiaddr_bytes(*m),
        multiaddr_accepts(r@),
{
    m.to_vec()
}

/// `Multiaddr::try_from(Vec<u8>)`: accepts the valid encodings and keeps the
/// bytes as they are.
#[verifier::external_body]
pub(crate) fn multiaddr_try_from(bytes: Vec<u8>) -> (r: Option<Multiaddr>)
    ensures
        r is Some <==> multiaddr_accepts(bytes@),
        r matches Some(m) ==> multiaddr_bytes(m) == bytes@,
{
    Multiaddr::try_from(bytes).ok()
}

/// An IP address.
#[derive(Debug, PartialEq, Eq, Clone, Copy, Structural)]
pub enum IpAddress {
    V4(u32),
    V6(u128),
}

/// An IP address and a port.
#[derive(Debug, PartialEq, Eq, Clone, Copy, Structural)]
pub struct SocketAddress {
    pub ip: IpAddress,
    pub port: u16,
}

/// The IP address of a component, if it is one.
pub open spec fn component_ip(c: Component) -> Option<IpAddress> {
    match c {
        Component::Ip4(a) => Some(IpAddress::V4(a)),
        Component::Ip6(a) => Some(IpAddress::V6(a)),
        _ => None,
    }
}

/// The UDP port of a component, if it is one.
pub open spec fn component_udp(c: Component) -> Option<u16> {
    match c {
        Component::Udp(p) => Some(p),
        _ => None,
    }
}

/// The last IP address among the components.
pub open spec fn last_ip(cs: Seq<Component>) -> Option<IpAddress>
    decreases cs.len(),
{
    if cs.len() == 0 {
        None
    } else if component_ip(cs.last()) is Some {
        component_ip(cs.last())
    } else {
        last_ip(cs.drop_last())
    }
}

/// The last UDP port among the components.
pub open spec fn last_udp(cs: Seq<Component>) -> Option<u16>
    decreases cs.len(),
{
    if cs.len() == 0 {
        None
    } else if component_udp(cs.last()) is Some {
        component_udp(cs.last())
    } else {
        last_udp(cs.drop_last())
    }
}

/// Whether a component is an IP address.
pub open spec fn is_ip(c: Component) -> bool {
    c is Ip4 || c is Ip6
}

/// Whether a component is a port (UDP or TCP).
pub open spec fn is_port(c: Component) -> bool {
    c is Udp || c is Tcp
}

/// Whether the components name both an IP address and a port.
pub open spec fn spec_contains_socket_addr(cs: Seq<Component>) -> bool {
    (exists|i: int| 0 <= i < cs.len() && is_ip(#[trigger] cs[i]))
        && (exists|j: int| 0 <= j < cs.len() && is_port(#[trigger] cs[j]))
}

/// Whether the components name the QUIC protocol.
pub open spec fn spec_is_quic(cs: Seq<Component>) -> bool {
    exists|i: int| 0 <= i < cs.len() && cs[i] is Quic
}

/// Whether a socket address can be read out of the components: they hold an
/// IP address and a UDP port.
pub open spec fn has_socket_addr(cs: Seq<Component>) -> bool {
    last_ip(cs) is Some && last_udp(cs) is Some
}

/// The socket address read out of the components: the last IP address and
/// the last UDP port.
pub open spec fn spec_socket_addr(cs: Seq<Component>) -> SocketAddress {
    SocketAddress { ip: last_ip(cs).unwrap(), port: last_udp(cs).unwrap() }
}

/// The components of the QUIC address of a socket address.
pub open spec fn quic_components(sock: SocketAddress) -> Seq<Component> {
    let ip = match sock.ip {
        IpAddress::V4(a) => Component::Ip4(a),
        IpAddress::V6(a) => Component::Ip6(a),
    };
    seq![ip, Component::Udp(sock.port), Component::Quic]
}

proof fn lemma_take_step(cs: Seq<Component>, i: int)
    requires
        0 <= i < cs.len(),
    ensures
        cs.take(i + 1).drop_last() == cs.take(i),
        cs.take(i + 1).last() == cs[i],
{
    assert(cs.take(i + 1).drop_last() =~= cs.take(i));
}

fn ip_of(c: &AddrComponent) -> (r: Option<IpAddress>)
    ensures
        r == component_ip(c@),
{
    match c {
        AddrComponent::Ip4(a) => Some(IpAddress::V4(*a)),
        AddrComponent::Ip6(a) => Some(IpAddress::V6(*a)),
        _ => None,
    }
}

/// Reads the last IP address and the last UDP port of a multiaddress.
fn socket_parts(m: &Multiaddr) -> (r: (Option<IpAddress>, Option<u16>))
    ensures
        r.0 == last_ip(components(*m)),
        r.1 == last_udp(components(*m)),
{
    let cs = multiaddr_iter(m);
    let ghost view = cs@.map_values(|c: AddrComponent| c@);
    let mut ip: Option<IpAddress> = None;
    let mut port: Option<u16> = None;
    let mut i: usize = 0;
    assert(view.take(0) =~= Seq::<Component>::empty());
    while i < cs.len()
        invariant
            view == cs@.map_values(|c: AddrComponent| c@),
            i <= cs@.len(),
            ip == last_ip(view.take(i as int)),
            port == last_udp(view.take(i as int)),
        decreases cs@.len() - i,
    {
        proof { lemma_take_step(view, i as int); }
        let c = &cs[i];
        match ip_of(c) {
            Some(a) => { ip = Some(a); },
            None => {},
        }
        match c {
            AddrComponent::Udp(p) => { port = Some(*p); },
            _ => {},
        }
        i = i + 1;
    }
    assert(view.take(cs@.len() as int) =~= view);
    (ip, port)
}

/// The socket address of a multiaddress, if it holds one: its last IP
/// address and its last UDP port.
pub fn try_socket_addr(m: &Multiaddr) -> (r: Option<SocketAddress>)
    ensures
        r is Some <==> has_socket_addr(components(*m)),
        r matches Some(a) ==> a == spec_socket_addr(components(*m)),
{
    match socket_parts(m) {
        (Some(ip), Some(port)) => Some(SocketAddress { ip, port }),
        _ => None,
    }
}

/// Reading addresses out of, and building, multiaddresses.
pub trait MultiaddrExt: Sized {
    /// The protocol components of this address.
    spec fn parts(&self) -> Seq<Component>;

    /// The QUIC address of a socket address: `/<ip>/udp/<port>/quic`.
    fn quic_from_sock_addr(sock: SocketAddress) -> (r: Self)
        ensures
            r.parts() == quic_components(sock);

    /// The QUIC address of a socket address with the peer's identity
    /// appended: `/<ip>/udp/<port>/quic/p2p/<peer id>`.
    fn quic_peer(sock: SocketAddress, peer_id: PeerId) -> (r: Self)
        ensures
            r.parts() == quic_components(sock).push(Component::P2p(peer_id@));

    /// Appends the peer's identity.
    fn push_peer_id(&mut self, peer_id: PeerId)
        ensures
            final(self).parts() == old(self).parts().push(Component::P2p(peer_id@));

    /// The socket address of this multiaddress: its last IP address and its
    /// last UDP port, which it must hold.
    fn to_socket_addr(&self) -> (r: SocketAddress)
        requires
            has_socket_addr(self.parts()),
        ensures
            r == spec_socket_addr(self.parts());

    /// Whether this multiaddress holds an IP address and a UDP or TCP port.
    fn contains_socket_addr(&self) -> (r: bool)
        ensures
            r == spec_contains_socket_addr(self.parts());

    /// Whether this multiaddress names QUIC.
    fn is_quic(&self) -> (r: bool)
        ensures
            r == spec_is_quic(self.parts());
}

impl MultiaddrExt for Multiaddr {
    open spec fn parts(&self) -> Seq<Component> {
        components(*self)
    }

    fn quic_from_sock_addr(sock: SocketAddress) -> (r: Multiaddr) {
        let mut addr = match sock.ip {
            IpAddress::V4(a) => multiaddr_from_ip4(a),
            IpAddress::V6(a) => multiaddr_from_ip6(a),
        };
        multiaddr_push_udp(&mut addr, sock.port);
        multiaddr_push_quic(&mut addr);
        assert(components(addr) =~= quic_components(sock));
        addr
    }

    fn quic_peer(sock: SocketAddress, peer_id: PeerId) -> (r: Multiaddr) {
        let mut addr = Multiaddr::quic_from_sock_addr(sock);
        addr.push_peer_id(peer_id);
        addr
    }

    fn push_peer_id(&mut self, peer_id: PeerId) {
        multiaddr_push_p2p(self, peer_id.into_inner())
    }

    fn to_socket_addr(&self) -> (r: SocketAddress) {
        let (ip, port) = socket_parts(self);
        SocketAddress { ip: ip.unwrap(), port: port.unwrap() }
    }

    fn contains_socket_addr(&self) -> (r: bool) {
        let cs = multiaddr_iter(self);
        let ghost view = cs@.map_values(|c: AddrComponent| c@);
        let mut has_ip = false;
        let mut has_port = false;
        let mut i: usize = 0;
        while i < cs.len()
            invariant
                view == cs@.map_values(|c: AddrComponent| c@),
                view == components(*self),
                i <= cs@.len(),
                has_ip == (exists|k: int| 0 <= k < i && is_ip(#[trigger] view[k])),
                has_port == (exists|k: int| 0 <= k < i && is_port(#[trigger] view[k])),
            decreases cs@.len() - i,
        {
            match &cs[i] {
                AddrComponent::Ip4(_) => { has_ip = true; },
                AddrComponent::Ip6(_) => { has_ip = true; },
                AddrComponent::Udp(_) => { has_port = true; },
                AddrComponent::Tcp(_) => { has_port = true; },
                _ => {},
            }
            assert(is_ip(view[i as int]) == (cs@[i as int] is Ip4 || cs@[i as int] is Ip6));
            i = i + 1;
        }
        has_ip && has_port
    }

    fn is_quic(&self) -> (r: bool) {
        let cs = multiaddr_iter(self);
        let ghost view = cs@.map_values(|c: AddrComponent| c@);
        let mut i: usize = 0;
        while i < cs.len()
            invariant
                view == cs@.map_values(|c: AddrComponent| c@),
                view == components(*self),
                i <= cs@.len(),
                forall|k: int| 0 <= k < i ==> !(view[k] is Quic),
            decreases cs@.len() - i,
        {
            match &cs[i] {
                AddrComponent::Quic => {
                    assert(view[i as int] is Quic);
                    return true;
                },
                _ => {},
            }
            i = i + 1;
        }
        false
    }
}

/// The QUIC address of a socket address holds that socket address, names
/// QUIC, and holds an IP address and a port; appending a peer identity keeps
/// all of that.
pub proof fn lemma_quic_address_roundtrip(sock: SocketAddress, peer: Seq<u8>)
    ensures
        has_socket_addr(quic_components(sock)),
        spec_socket_addr(quic_components(sock)) == sock,
        spec_is_quic(quic_components(sock)),
        spec_contains_socket_addr(quic_components(sock)),
        has_socket_addr(quic_components(sock).push(Component::P2p(peer))),
        spec_socket_addr(quic_components(sock).push(Component::P2p(peer))) == sock,
        spec_is_quic(quic_components(sock).push(Component::P2p(peer))),
        spec_contains_socket_addr(quic_components(sock).push(Component::P2p(peer))),
{
    let cs = quic_components(sock);
    let ps = cs.push(Component::P2p(peer));
    assert(cs.drop_last() =~= seq![cs[0], cs[1]]);
    assert(cs.drop_last().drop_last() =~= seq![cs[0]]);
    assert(ps.drop_last() =~= cs);
    assert(is_ip(cs[0]));
    assert(is_port(cs[1]));
    assert(cs[2] is Quic);
    assert(is_ip(ps[0]));
    assert(is_port(ps[1]));
    assert(ps[2] is Quic);
    reveal_with_fuel(last_ip, 4);
    reveal_with_fuel(last_udp, 4);
}

} // verus!
