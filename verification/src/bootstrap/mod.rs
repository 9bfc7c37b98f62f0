//! The bootstrap protocol: publishers hand out known peers to subscribers.
//!
//! A stream of the protocol carries `DiscoverPeers` messages, each a list of
//! peers, each peer its identity bytes and the bytes of one address. A
//! publisher answers an inbound stream by publishing known peers at an
//! interval; a subscriber that dials out publishes its own address once;
//! both then register every peer the remote side sends. A publisher does not
//! dial out to collect peers and a subscriber does not answer peer queries:
//! such streams are reset.
use vstd::prelude::*;

use crate::crypto::{multihash_valid, PeerId};
use crate::multiaddr::{multiaddr_accepts, multiaddr_bytes, multiaddr_to_vec, multiaddr_try_from};
use crate::network::{Direction, Protocol, ProtocolId};
use crate::peer_store::simple_store::{registered, SimplePeerStore};
use crate::peer_store::{chosen, pair_views};
use crate::proto::{
    encodable, fields_bytes, fields_of, fields_view, lemma_fields_bytes_push,
    lemma_fields_roundtrip, read_fields, write_bytes_field, FieldValue, FieldView, WireValue,
    RECURSION_LIMIT,
};
use parity_multiaddr::Multiaddr;

verus! {

/// The protocol name, version appended.
pub const PROTO_NAME: &'static str = "/bootstrap/1.0";

/// How many known peers one publication carries at most.
pub const PUBLISH_PEERS_MAX: usize = 40;

/// Why receiving newly arrived peers failed.
#[derive(Debug, PartialEq, Eq, Clone, Copy, Structural)]
pub enum BootstrapError {
    /// The stream ended without another message.
    NoNewArrive,
    /// The message is not a well-formed peer list.
    DecodeNewArrived,
    /// A peer identity of the list is not a valid multihash.
    DecodePeerId,
    /// An address of the list is not a valid multiaddress.
    DecodeMultiaddr,
}

/// What the bootstrap protocol reports to its owner.
#[derive(Debug, PartialEq, Eq, Clone, Copy, Structural)]
pub enum Event {
    NewArrived,
}

/// The role a host plays in the bootstrap protocol.
#[derive(Debug, Clone, Copy, PartialEq, Eq, Structural)]
pub enum Mode {
    Publisher,
    Subscriber,
}

impl Event {
    /// The text shown for this event.
    pub fn label(&self) -> (r: &'static str)
        ensures
            r@ == "got new peer info from bootstrap peer"@,
    {
        "got new peer info from bootstrap peer"
    }
}

impl Mode {
    /// The text shown for this mode.
    pub fn label(&self) -> (r: &'static str)
        ensures
            r@ == (match self {
                Mode::Publisher => "publisher mode"@,
                Mode::Subscriber => "subscriber mode"@,
            }),
    {
        match self {
            Mode::Publisher => "publisher mode",
            Mode::Subscriber => "subscriber mode",
        }
    }
}

// ---------------------------------------------------------------------------
// Messages.

/// One peer as the protocol sends it.
pub struct PeerInfo {
    pub peer_id: Vec<u8>,
    pub multiaddr: Vec<u8>,
}

/// One peer of a message, as the logic reads it.
pub struct PeerInfoView {
    pub peer_id: Seq<u8>,
    pub multiaddr: Seq<u8>,
}

impl View for PeerInfo {
    type V = PeerInfoView;

    open spec fn view(&self) -> PeerInfoView {
        PeerInfoView { peer_id: self.peer_id@, multiaddr: self.multiaddr@ }
    }
}

/// The views of peers.
pub open spec fn peer_infos_view(v: Seq<PeerInfo>) -> Seq<PeerInfoView> {
    v.map_values(|p: PeerInfo| p@)
}

/// Reading one field of a peer into what was read so far.
pub open spec fn peer_info_step(acc: PeerInfoView, f: FieldView) -> Option<PeerInfoView> {
    if f.tag == 1 {
        match f.value {
            WireValue::Bytes(b) => Some(PeerInfoView { peer_id: b, ..acc }),
            _ => None,
        }
    } else if f.tag == 2 {
        match f.value {
            WireValue::Bytes(b) => Some(PeerInfoView { multiaddr: b, ..acc }),
            _ => None,
        }
    } else {
        Some(acc)
    }
}

/// Reading the fields of a peer in order, from the empty peer.
pub open spec fn peer_info_fold(fs: Seq<FieldView>) -> Option<PeerInfoView>
    decreases fs.len(),
{
    if fs.len() == 0 {
        Some(PeerInfoView { peer_id: Seq::empty(), multiaddr: Seq::empty() })
    } else {
        match peer_info_fold(fs.drop_last()) {
            Some(acc) => peer_info_step(acc, fs.last()),
            None => None,
        }
    }
}

/// The peer that `s` encodes, if it is well formed.
/// A peer is always nested in a peer list, so its fields have one level of
/// nesting less than the list's.
pub open spec fn peer_info_decoded(s: Seq<u8>) -> Option<PeerInfoView> {
    match fields_of(s, (RECURSION_LIMIT - 1) as nat) {
        Some(fs) => peer_info_fold(fs),
        None => None,
    }
}

/// The fields written for a peer: those that are not empty.
pub open spec fn peer_info_fields(p: PeerInfoView) -> Seq<FieldView> {
    (if p.peer_id.len() > 0 {
        seq![FieldView { tag: 1, value: WireValue::Bytes(p.peer_id) }]
    } else {
        Seq::empty()
    }) + (if p.multiaddr.len() > 0 {
        seq![FieldView { tag: 2, value: WireValue::Bytes(p.multiaddr) }]
    } else {
        Seq::empty()
    })
}

/// The encoding of a peer.
pub open spec fn peer_info_encoded(p: PeerInfoView) -> Seq<u8> {
    fields_bytes(peer_info_fields(p))
}

/// Reading one field of a peer list into the peers read so far.
pub open spec fn discover_step(acc: Seq<PeerInfoView>, f: FieldView) -> Option<Seq<PeerInfoView>> {
    if f.tag == 1 {
        match f.value {
            WireValue::Bytes(b) => match peer_info_decoded(b) {
                Some(p) => Some(acc.push(p)),
                None => None,
            },
            _ => None,
        }
    } else {
        Some(acc)
    }
}

/// Reading the fields of a peer list in order.
pub open spec fn discover_fold(fs: Seq<FieldView>) -> Option<Seq<PeerInfoView>>
    decreases fs.len(),
{
    if fs.len() == 0 {
        Some(Seq::empty())
    } else {
        match discover_fold(fs.drop_last()) {
            Some(acc) => discover_step(acc, fs.last()),
            None => None,
        }
    }
}

/// The peer list that `s` encodes, if it is well formed.
pub open spec fn discover_decoded(s: Seq<u8>) -> Option<Seq<PeerInfoView>> {
    match fields_of(s, RECURSION_LIMIT as nat) {
        Some(fs) => discover_fold(fs),
        None => None,
    }
}

/// The fields written for a peer list: one per peer, in order.
pub open spec fn discover_fields(ps: Seq<PeerInfoView>) -> Seq<FieldView> {
    ps.map_values(|p: PeerInfoView| FieldView { tag: 1, value: WireValue::Bytes(peer_info_encoded(p)) })
}

/// The encoding of a peer list.
pub open spec fn discover_encoded(ps: Seq<PeerInfoView>) -> Seq<u8> {
    fields_bytes(discover_fields(ps))
}

/// Whether the encoding of each peer fits the length a varint can give.
pub open spec fn peers_encodable(ps: Seq<PeerInfoView>) -> bool {
    forall|i: int| 0 <= i < ps.len() ==> (#[trigger] peer_info_encoded(ps[i])).len()
        < 0x1_0000_0000_0000_0000
}

proof fn lemma_peer_info_fields_encodable(p: PeerInfoView)
    requires
        p.peer_id.len() < 0x1_0000_0000_0000_0000,
        p.multiaddr.len() < 0x1_0000_0000_0000_0000,
    ensures
        forall|i: int| 0 <= i < peer_info_fields(p).len() ==> encodable(#[trigger] peer_info_fields(p)[i]),
{
}

/// A peer read back from its encoding is the peer that was written.
pub proof fn lemma_peer_info_roundtrip(p: PeerInfoView)
    requires
        peer_info_encoded(p).len() < 0x1_0000_0000_0000_0000,
    ensures
        peer_info_decoded(peer_info_encoded(p)) == Some(p),
{
    let fs = peer_info_fields(p);
    assert(p.peer_id.len() <= peer_info_encoded(p).len() && p.multiaddr.len() <= peer_info_encoded(p).len()) by {
        lemma_peer_info_encoded_len(p);
    }
    lemma_peer_info_fields_encodable(p);
    lemma_fields_roundtrip(fs, (RECURSION_LIMIT - 1) as nat);
    let empty = PeerInfoView { peer_id: Seq::<u8>::empty(), multiaddr: Seq::<u8>::empty() };
    let fields = fields_of(peer_info_encoded(p), (RECURSION_LIMIT - 1) as nat);
    assert(fields == Some(fs));
    if p.peer_id.len() > 0 && p.multiaddr.len() > 0 {
        assert(fs.drop_last() =~= seq![fs[0]]);
        assert(fs.drop_last().drop_last() =~= Seq::<FieldView>::empty());
        assert(peer_info_fold(fs.drop_last().drop_last()) == Some(empty));
        assert(peer_info_fold(fs.drop_last()) == Some(PeerInfoView { peer_id: p.peer_id, ..empty }));
        assert(peer_info_fold(fs) == Some(p));
    } else if p.peer_id.len() > 0 {
        assert(fs.drop_last() =~= Seq::<FieldView>::empty());
        assert(p.multiaddr =~= Seq::<u8>::empty());
        assert(peer_info_fold(fs.drop_last()) == Some(empty));
        assert(peer_info_fold(fs) == Some(p));
    } else if p.multiaddr.len() > 0 {
        assert(fs.drop_last() =~= Seq::<FieldView>::empty());
        assert(p.peer_id =~= Seq::<u8>::empty());
        assert(peer_info_fold(fs.drop_last()) == Some(empty));
        assert(peer_info_fold(fs) == Some(p));
    } else {
        assert(fs =~= Seq::<FieldView>::empty());
        assert(p.peer_id =~= Seq::<u8>::empty());
        assert(p.multiaddr =~= Seq::<u8>::empty());
        assert(peer_info_fold(fs) == Some(p));
    }
}

proof fn lemma_peer_info_encoded_len(p: PeerInfoView)
    ensures
        p.peer_id.len() <= peer_info_encoded(p).len(),
        p.multiaddr.len() <= peer_info_encoded(p).len(),
{
    let a = if p.peer_id.len() > 0 {
        seq![FieldView { tag: 1, value: WireValue::Bytes(p.peer_id) }]
    } else {
        Seq::<FieldView>::empty()
    };
    let b = if p.multiaddr.len() > 0 {
        seq![FieldView { tag: 2, value: WireValue::Bytes(p.multiaddr) }]
    } else {
        Seq::<FieldView>::empty()
    };
    let fs = peer_info_fields(p);
    assert(fs == a + b);
    if p.peer_id.len() > 0 && p.multiaddr.len() > 0 {
        assert(fs =~= Seq::<FieldView>::empty().push(a[0]).push(b[0]));
        lemma_fields_bytes_push(Seq::<FieldView>::empty().push(a[0]), b[0]);
        lemma_fields_bytes_push(Seq::<FieldView>::empty(), a[0]);
    } else if p.peer_id.len() > 0 {
        assert(fs =~= Seq::<FieldView>::empty().push(a[0]));
        lemma_fields_bytes_push(Seq::<FieldView>::empty(), a[0]);
    } else if p.multiaddr.len() > 0 {
        assert(fs =~= Seq::<FieldView>::empty().push(b[0]));
        lemma_fields_bytes_push(Seq::<FieldView>::empty(), b[0]);
    }
}

proof fn lemma_discover_fold(ps: Seq<PeerInfoView>, n: int)
    requires
        peers_encodable(ps),
        0 <= n <= ps.len(),
    ensures
        discover_fold(discover_fields(ps).take(n)) == Some(ps.take(n)),
    decreases n,
{
    let fs = discover_fields(ps);
    if n == 0 {
        assert(fs.take(0) =~= Seq::<FieldView>::empty());
        assert(ps.take(0) =~= Seq::<PeerInfoView>::empty());
    } else {
        lemma_discover_fold(ps, n - 1);
        assert(fs.take(n).drop_last() =~= fs.take(n - 1));
        assert(fs.take(n).last() == fs[n - 1]);
        assert(peer_info_encoded(ps[n - 1]).len() < 0x1_0000_0000_0000_0000);
        lemma_peer_info_roundtrip(ps[n - 1]);
        assert(ps.take(n - 1).push(ps[n - 1]) =~= ps.take(n));
    }
}

/// A peer list read back from its encoding is the list that was written.
pub proof fn lemma_discover_roundtrip(ps: Seq<PeerInfoView>)
    requires
        peers_encodable(ps),
    ensures
        discover_decoded(discover_encoded(ps)) == Some(ps),
{
    let fs = discover_fields(ps);
    assert forall|i: int| 0 <= i < fs.len() implies encodable(#[trigger] fs[i]) by {
        assert(peer_info_encoded(ps[i]).len() < 0x1_0000_0000_0000_0000);
    }
    lemma_fields_roundtrip(fs, RECURSION_LIMIT as nat);
    lemma_discover_fold(ps, ps.len() as int);
    assert(fs.take(ps.len() as int) =~= fs);
    assert(ps.take(ps.len() as int) =~= ps);
}


proof fn lemma_peer_info_fold_fails(fs: Seq<FieldView>, k: int)
    requires
        0 <= k <= fs.len(),
        peer_info_fold(fs.take(k)) is None,
    ensures
        peer_info_fold(fs) is None,
    decreases fs.len() - k,
{
    if k < fs.len() {
        assert(fs.take(k + 1).drop_last() =~= fs.take(k));
        lemma_peer_info_fold_fails(fs, k + 1);
    } else {
        assert(fs.take(k) =~= fs);
    }
}

proof fn lemma_discover_fold_fails(fs: Seq<FieldView>, k: int)
    requires
        0 <= k <= fs.len(),
        discover_fold(fs.take(k)) is None,
    ensures
        discover_fold(fs) is None,
    decreases fs.len() - k,
{
    if k < fs.len() {
        assert(fs.take(k + 1).drop_last() =~= fs.take(k));
        lemma_discover_fold_fails(fs, k + 1);
    } else {
        assert(fs.take(k) =~= fs);
    }
}

/// The identity and address bytes a message names, or why it names none.
pub open spec fn spec_into_pair(info: PeerInfoView) -> Result<(Seq<u8>, Seq<u8>), BootstrapError> {
    if !multihash_valid(info.peer_id) {
        Err(BootstrapError::DecodePeerId)
    } else if !multiaddr_accepts(info.multiaddr) {
        Err(BootstrapError::DecodeMultiaddr)
    } else {
        Ok((info.peer_id, info.multiaddr))
    }
}

/// A peer and address published in a message are read back unchanged: every
/// peer identity is a valid multihash and every address is one the parser
/// accepts (as `PeerInfo::new` ensures of what it writes), so decoding the
/// encoded message and taking its pair gives back the same identity and
/// address.
pub proof fn lemma_peer_pair_roundtrip(peer_id: Seq<u8>, addr: Seq<u8>)
    requires
        multihash_valid(peer_id),
        multiaddr_accepts(addr),
        peer_info_encoded(PeerInfoView { peer_id, multiaddr: addr }).len() < 0x1_0000_0000_0000_0000,
    ensures
        peer_info_decoded(peer_info_encoded(PeerInfoView { peer_id, multiaddr: addr })) matches Some(q)
            && spec_into_pair(q) == Ok::<(Seq<u8>, Seq<u8>), BootstrapError>((peer_id, addr)),
{
    lemma_peer_info_roundtrip(PeerInfoView { peer_id, multiaddr: addr });
}

impl PeerInfo {
    /// The message form of a peer and one of its addresses; both are in a
    /// form that `into_pair` accepts.
    pub fn new(peer_addr: (PeerId, Multiaddr)) -> (r: PeerInfo)
        ensures
            r.peer_id@ == peer_addr.0@,
            r.multiaddr@ == multiaddr_bytes(peer_addr.1),
            multihash_valid(r.peer_id@),
            multiaddr_accepts(r.multiaddr@),
    {
        let peer_id = vstd::slice::slice_to_vec(peer_addr.0.as_slice());
        let multiaddr = multiaddr_to_vec(&peer_addr.1);
        PeerInfo { peer_id, multiaddr }
    }

    /// The peer and address this message names: fails with `DecodePeerId` if
    /// the identity is not a valid multihash, else with `DecodeMultiaddr` if
    /// the address is not a valid multiaddress.
    pub fn into_pair(self) -> (r: Result<(PeerId, Multiaddr), BootstrapError>)
        ensures
            !multihash_valid(self.peer_id@) ==> r == Err::<(PeerId, Multiaddr), BootstrapError>(
                BootstrapError::DecodePeerId,
            ),
            multihash_valid(self.peer_id@) && !multiaddr_accepts(self.multiaddr@) ==> r == Err::<
                (PeerId, Multiaddr),
                BootstrapError,
            >(BootstrapError::DecodeMultiaddr),
            r is Ok <==> multihash_valid(self.peer_id@) && multiaddr_accepts(self.multiaddr@),
            r matches Ok((p, m)) ==> p@ == self.peer_id@ && multiaddr_bytes(m) == self.multiaddr@,
            match spec_into_pair(self@) {
                Ok((p, m)) => r matches Ok((rp, rm)) && rp@ == p && multiaddr_bytes(rm) == m,
                Err(e) => r == Err::<(PeerId, Multiaddr), BootstrapError>(e),
            },
    {
        let peer_id = match PeerId::from_bytes(self.peer_id) {
            Some(p) => p,
            None => return Err(BootstrapError::DecodePeerId),
        };
        let multiaddr = match multiaddr_try_from(self.multiaddr) {
            Some(m) => m,
            None => return Err(BootstrapError::DecodeMultiaddr),
        };
        Ok((peer_id, multiaddr))
    }

    /// Appends the encoding of this peer.
    pub fn encode_to(&self, out: &mut Vec<u8>)
        ensures
            final(out)@ == old(out)@ + peer_info_encoded(self@),
    {
        let ghost start = out@;
        let ghost a = FieldView { tag: 1, value: WireValue::Bytes(self.peer_id@) };
        let ghost b = FieldView { tag: 2, value: WireValue::Bytes(self.multiaddr@) };
        if self.peer_id.len() > 0 {
            write_bytes_field(out, 1, self.peer_id.as_slice());
        }
        if self.multiaddr.len() > 0 {
            write_bytes_field(out, 2, self.multiaddr.as_slice());
        }
        proof {
            let fs = peer_info_fields(self@);
            lemma_fields_bytes_push(Seq::<FieldView>::empty(), a);
            lemma_fields_bytes_push(Seq::<FieldView>::empty(), b);
            lemma_fields_bytes_push(seq![a], b);
            assert(Seq::<FieldView>::empty().push(a) =~= seq![a]);
            assert(Seq::<FieldView>::empty().push(b) =~= seq![b]);
            assert(seq![a].push(b) =~= seq![a, b]);
            assert(fields_bytes(Seq::<FieldView>::empty()) =~= Seq::<u8>::empty());
            if self.peer_id.len() > 0 && self.multiaddr.len() > 0 {
                assert(fs =~= seq![a, b]);
            } else if self.peer_id.len() > 0 {
                assert(fs =~= seq![a]);
            } else if self.multiaddr.len() > 0 {
                assert(fs =~= seq![b]);
            } else {
                assert(fs =~= Seq::<FieldView>::empty());
            }
            assert(out@ =~= start + fields_bytes(fs));
        }
    }

    /// Reads a peer from its encoding.
    pub fn decode(s: &[u8]) -> (r: Option<PeerInfo>)
        ensures
            match peer_info_decoded(s@) {
                None => r is None,
                Some(p) => r matches Some(q) && q@ == p,
            },
    {
        let fields = match read_fields(s, RECURSION_LIMIT - 1) {
            Some(f) => f,
            None => return None,
        };
        let ghost fs = fields_view(fields@);
        let mut acc = PeerInfo { peer_id: Vec::new(), multiaddr: Vec::new() };
        let mut i: usize = 0;
        while i < fields.len()
            invariant
                fs == fields_view(fields@),
                fields_of(s@, (RECURSION_LIMIT - 1) as nat) == Some(fs),
                i <= fields@.len(),
                peer_info_fold(fs.take(i as int)) == Some(acc@),
            decreases fields@.len() - i,
        {
            proof {
                assert(fs.take(i + 1).drop_last() =~= fs.take(i as int));
                assert(fs.take(i + 1).last() == fields@[i as int]@);
            }
            let f = &fields[i];
            if f.tag == 1 {
                match &f.value {
                    FieldValue::Bytes(b) => {
                        acc.peer_id = b.clone();
                    },
                    _ => {
                        proof { lemma_peer_info_fold_fails(fs, i + 1); }
                        return None;
                    },
                }
            } else if f.tag == 2 {
                match &f.value {
                    FieldValue::Bytes(b) => {
                        acc.multiaddr = b.clone();
                    },
                    _ => {
                        proof { lemma_peer_info_fold_fails(fs, i + 1); }
                        return None;
                    },
                }
            }
            i = i + 1;
        }
        assert(fs.take(fields@.len() as int) =~= fs);
        Some(acc)
    }
}

/// The encoding of a peer list.
pub fn encode_peers(peers: &Vec<PeerInfo>) -> (r: Vec<u8>)
    ensures
        r@ == discover_encoded(peer_infos_view(peers@)),
{
    let ghost ps = peer_infos_view(peers@);
    let mut out: Vec<u8> = Vec::new();
    let mut i: usize = 0;
    while i < peers.len()
        invariant
            ps == peer_infos_view(peers@),
            i <= peers@.len(),
            out@ == fields_bytes(discover_fields(ps.take(i as int))),
        decreases peers@.len() - i,
    {
        let mut one: Vec<u8> = Vec::new();
        peers[i].encode_to(&mut one);
        assert(one@ =~= peer_info_encoded(ps[i as int]));
        write_bytes_field(&mut out, 1, one.as_slice());
        proof {
            let f = FieldView { tag: 1, value: WireValue::Bytes(one@) };
            assert(discover_fields(ps.take(i + 1)) =~= discover_fields(ps.take(i as int)).push(f));
            lemma_fields_bytes_push(discover_fields(ps.take(i as int)), f);
        }
        i = i + 1;
    }
    assert(ps.take(peers@.len() as int) =~= ps);
    out
}

/// Reads a peer list from its encoding.
pub fn decode_peers(s: &[u8]) -> (r: Option<Vec<PeerInfo>>)
    ensures
        match discover_decoded(s@) {
            None => r is None,
            Some(ps) => r matches Some(v) && peer_infos_view(v@) == ps,
        },
{
    let fields = match read_fields(s, RECURSION_LIMIT) {
        Some(f) => f,
        None => return None,
    };
    let ghost fs = fields_view(fields@);
    let mut acc: Vec<PeerInfo> = Vec::new();
    let mut i: usize = 0;
    while i < fields.len()
        invariant
            fs == fields_view(fields@),
            fields_of(s@, RECURSION_LIMIT as nat) == Some(fs),
            i <= fields@.len(),
            discover_fold(fs.take(i as int)) == Some(peer_infos_view(acc@)),
        decreases fields@.len() - i,
    {
        proof {
            assert(fs.take(i + 1).drop_last() =~= fs.take(i as int));
            assert(fs.take(i + 1).last() == fields@[i as int]@);
        }
        let f = &fields[i];
        if f.tag == 1 {
            match &f.value {
                FieldValue::Bytes(b) => {
                    match PeerInfo::decode(b.as_slice()) {
                        Some(p) => {
                            let ghost before = acc@;
                            acc.push(p);
                            assert(peer_infos_view(acc@) =~= peer_infos_view(before).push(p@));
                        },
                        None => {
                            proof { lemma_discover_fold_fails(fs, i + 1); }
                            return None;
                        },
                    }
                },
                _ => {
                    proof { lemma_discover_fold_fails(fs, i + 1); }
                    return None;
                },
            }
        }
        i = i + 1;
    }
    assert(fs.take(fields@.len() as int) =~= fs);
    Some(acc)
}

// ---------------------------------------------------------------------------
// The protocol.

/// The bootstrap protocol under the given identity.
pub fn protocol(proto_id: ProtocolId) -> (r: Protocol)
    ensures
        r.id == proto_id,
        r.name@ == PROTO_NAME@,
{
    Protocol::new(proto_id.0, PROTO_NAME)
}

/// What a host does with a new stream of the protocol.
#[derive(Debug, PartialEq, Eq, Clone, Copy, Structural)]
pub enum StreamPlan {
    /// Publish known peers at an interval, and register what arrives.
    PublishPeers,
    /// Publish our own address once, and register what arrives.
    PublishOurself,
    /// Reset the stream.
    Reset,
}

/// What a host in `mode` does with a stream in `direction`.
pub open spec fn spec_stream_plan(mode: Mode, direction: Direction) -> StreamPlan {
    match (mode, direction) {
        (Mode::Publisher, Direction::Inbound) => StreamPlan::PublishPeers,
        (Mode::Subscriber, Direction::Outbound) => StreamPlan::PublishOurself,
        (Mode::Publisher, Direction::Outbound) => StreamPlan::Reset,
        (Mode::Subscriber, Direction::Inbound) => StreamPlan::Reset,
    }
}

/// What a host in `mode` does with a stream in `direction`: a publisher
/// answers inbound streams with known peers, a subscriber that dialed out
/// publishes itself, and the other streams are reset (a publisher does not
/// dial out to collect peers, a subscriber does not answer peer queries).
pub fn stream_plan(mode: Mode, direction: Direction) -> (r: StreamPlan)
    ensures
        r == spec_stream_plan(mode, direction),
{
    match (mode, direction) {
        (Mode::Publisher, Direction::Inbound) => StreamPlan::PublishPeers,
        (Mode::Subscriber, Direction::Outbound) => StreamPlan::PublishOurself,
        (Mode::Publisher, Direction::Outbound) => StreamPlan::Reset,
        (Mode::Subscriber, Direction::Inbound) => StreamPlan::Reset,
    }
}

/// Whether the host registers the peers that arrive on a stream it handles
/// by `plan`: on every stream it does not reset.
pub fn reads_arrivals(plan: StreamPlan) -> (r: bool)
    ensures
        r == (plan != StreamPlan::Reset),
{
    match plan {
        StreamPlan::Reset => false,
        _ => true,
    }
}

/// The message form of (identity, address) pairs.
pub open spec fn pair_infos(pairs: Seq<(Seq<u8>, Seq<u8>)>) -> Seq<PeerInfoView> {
    pairs.map_values(|p: (Seq<u8>, Seq<u8>)| PeerInfoView { peer_id: p.0, multiaddr: p.1 })
}

/// The message that publishes our own address.
pub fn encode_ourself(peer_id: &PeerId, local_multiaddr: &Multiaddr) -> (r: Vec<u8>)
    ensures
        r@ == discover_encoded(pair_infos(seq![(peer_id@, multiaddr_bytes(*local_multiaddr))])),
{
    let info = PeerInfo::new((peer_id.clone(), crate::multiaddr::multiaddr_clone(local_multiaddr)));
    let mut peers: Vec<PeerInfo> = Vec::new();
    peers.push(info);
    assert(peer_infos_view(peers@) =~= pair_infos(seq![(peer_id@, multiaddr_bytes(*local_multiaddr))]));
    encode_peers(&peers)
}

/// The message that publishes (identity, address) pairs.
pub fn encode_pairs(pairs: Vec<(PeerId, Multiaddr)>) -> (r: Vec<u8>)
    ensures
        r@ == discover_encoded(pair_infos(pair_views(pairs@))),
{
    let ghost pv = pair_views(pairs@);
    let mut infos: Vec<PeerInfo> = Vec::new();
    let mut i: usize = 0;
    while i < pairs.len()
        invariant
            pv == pair_views(pairs@),
            i <= pairs@.len(),
            peer_infos_view(infos@) == pair_infos(pv.take(i as int)),
        decreases pairs@.len() - i,
    {
        let pair = (pairs[i].0.clone(), crate::multiaddr::multiaddr_clone(&pairs[i].1));
        let info = PeerInfo::new(pair);
        let ghost before = infos@;
        infos.push(info);
        proof {
            assert(pv[i as int] == (pairs@[i as int].0@, multiaddr_bytes(pairs@[i as int].1)));
            assert(pv.take(i + 1) =~= pv.take(i as int).push(pv[i as int]));
            assert(pair_infos(pv.take(i + 1)) =~= pair_infos(pv.take(i as int)).push(
                PeerInfoView { peer_id: pv[i as int].0, multiaddr: pv[i as int].1 },
            ));
            assert(peer_infos_view(infos@) =~= peer_infos_view(before).push(info@));
        }
        i = i + 1;
    }
    assert(pv.take(pairs@.len() as int) =~= pv);
    encode_peers(&infos)
}

/// The message that publishes up to `PUBLISH_PEERS_MAX` peers of the book,
/// each with one of its addresses.
pub fn publish_peers(peer_store: &SimplePeerStore) -> (r: Vec<u8>)
    requires
        peer_store.wf(),
    ensures
        exists|pairs: Seq<(Seq<u8>, Seq<u8>)>|
            chosen(peer_store@, PUBLISH_PEERS_MAX as nat, pairs)
                && r@ == discover_encoded(pair_infos(pairs)),
{
    let pairs = peer_store.choose_peers(PUBLISH_PEERS_MAX);
    let ghost pv = pair_views(pairs@);
    let r = encode_pairs(pairs);
    assert(chosen(peer_store@, PUBLISH_PEERS_MAX as nat, pv));
    r
}

/// The pairs a peer list names, in order, or the error of its first peer
/// whose identity or address does not decode.
pub open spec fn arrival_pairs(ps: Seq<PeerInfoView>) -> Result<Seq<(Seq<u8>, Seq<u8>)>, BootstrapError>
    decreases ps.len(),
{
    if ps.len() == 0 {
        Ok(Seq::empty())
    } else {
        match arrival_pairs(ps.drop_last()) {
            Err(e) => Err(e),
            Ok(prefix) => {
                let p = ps.last();
                if !multihash_valid(p.peer_id) {
                    Err(BootstrapError::DecodePeerId)
                } else if !multiaddr_accepts(p.multiaddr) {
                    Err(BootstrapError::DecodeMultiaddr)
                } else {
                    Ok(prefix.push((p.peer_id, p.multiaddr)))
                }
            },
        }
    }
}

proof fn lemma_arrival_fails(ps: Seq<PeerInfoView>, k: int)
    requires
        0 <= k <= ps.len(),
        arrival_pairs(ps.take(k)) is Err,
    ensures
        arrival_pairs(ps) == arrival_pairs(ps.take(k)),
    decreases ps.len() - k,
{
    if k < ps.len() {
        assert(ps.take(k + 1).drop_last() =~= ps.take(k));
        lemma_arrival_fails(ps, k + 1);
    } else {
        assert(ps.take(k) =~= ps);
    }
}

/// The (identity, address) pairs a peer list names, or the error of its
/// first peer whose identity or address does not decode.
pub fn decode_pairs(infos: Vec<PeerInfo>) -> (r: Result<Vec<(PeerId, Multiaddr)>, BootstrapError>)
    ensures
        match arrival_pairs(peer_infos_view(infos@)) {
            Err(e) => r == Err::<Vec<(PeerId, Multiaddr)>, BootstrapError>(e),
            Ok(pairs) => r matches Ok(v) && pair_views(v@) == pairs,
        },
{
    let ghost ps = peer_infos_view(infos@);
    let n = infos.len();
    assert(ps.len() == n);
    let mut pending = infos;
    let mut rev: Vec<PeerInfo> = Vec::new();
    while pending.len() > 0
        invariant
            ps.len() <= usize::MAX,
            pending@.len() + rev@.len() == ps.len(),
            forall|j: int| 0 <= j < pending@.len() ==> (#[trigger] pending@[j])@ == ps[j],
            forall|j: int| 0 <= j < rev@.len() ==> (#[trigger] rev@[j])@ == ps[ps.len() - 1 - j],
        decreases pending@.len(),
    {
        let p = pending.pop().unwrap();
        rev.push(p);
    }
    let mut out: Vec<(PeerId, Multiaddr)> = Vec::new();
    let mut i: usize = 0;
    assert(ps.take(0) =~= Seq::<PeerInfoView>::empty());
    assert(pair_views(out@) =~= Seq::<(Seq<u8>, Seq<u8>)>::empty());
    while rev.len() > 0
        invariant
            ps == peer_infos_view(infos@),
            ps.len() <= usize::MAX,
            i + rev@.len() == ps.len(),
            forall|j: int| 0 <= j < rev@.len() ==> (#[trigger] rev@[j])@ == ps[ps.len() - 1 - j],
            arrival_pairs(ps.take(i as int)) == Ok::<Seq<(Seq<u8>, Seq<u8>)>, BootstrapError>(
                pair_views(out@),
            ),
        decreases rev@.len(),
    {
        let info = rev.pop().unwrap();
        assert(info@ == ps[i as int]);
        proof {
            assert(ps.take(i + 1).drop_last() =~= ps.take(i as int));
            assert(ps.take(i + 1).last() == ps[i as int]);
        }
        match info.into_pair() {
            Ok(pair) => {
                let ghost before = out@;
                let ghost pv = (pair.0@, multiaddr_bytes(pair.1));
                out.push(pair);
                assert(pair_views(out@) =~= pair_views(before).push(pv));
            },
            Err(e) => {
                proof {
                    assert(arrival_pairs(ps.take(i + 1)) == Err::<Seq<(Seq<u8>, Seq<u8>)>, BootstrapError>(e));
                    lemma_arrival_fails(ps, i + 1);
                    assert(arrival_pairs(ps) == Err::<Seq<(Seq<u8>, Seq<u8>)>, BootstrapError>(e));
                }
                return Err(e);
            },
        }
        i = i + 1;
    }
    assert(ps.take(ps.len() as int) =~= ps);
    Ok(out)
}

/// Registers the peers of a newly arrived message. Without a message, fails
/// with `NoNewArrive`; with a message that is not a well-formed peer list,
/// with `DecodeNewArrived`; with a peer whose identity or address does not
/// decode, with the error of the first such peer. The book changes only on
/// success, by registering every pair of the list in order.
pub fn new_arrived(peer_store: &mut SimplePeerStore, message: Option<&[u8]>) -> (r: Result<
    Event,
    BootstrapError,
>)
    requires
        old(peer_store).wf(),
    ensures
        final(peer_store).wf(),
        match message {
            None => r == Err::<Event, BootstrapError>(BootstrapError::NoNewArrive)
                && final(peer_store)@ == old(peer_store)@,
            Some(m) => match discover_decoded(m@) {
                None => r == Err::<Event, BootstrapError>(BootstrapError::DecodeNewArrived)
                    && final(peer_store)@ == old(peer_store)@,
                Some(ps) => match arrival_pairs(ps) {
                    Err(e) => r == Err::<Event, BootstrapError>(e) && final(peer_store)@ == old(
                        peer_store,
                    )@,
                    Ok(pairs) => r == Ok::<Event, BootstrapError>(Event::NewArrived)
                        && final(peer_store)@ == registered(old(peer_store)@, pairs),
                },
            },
        },
{
    let bytes = match message {
        Some(m) => m,
        None => return Err(BootstrapError::NoNewArrive),
    };
    let infos = match decode_peers(bytes) {
        Some(v) => v,
        None => return Err(BootstrapError::DecodeNewArrived),
    };
    let pairs = match decode_pairs(infos) {
        Ok(v) => v,
        Err(e) => return Err(e),
    };
    peer_store.register_peers(pairs);
    Ok(Event::NewArrived)
}

proof fn lemma_arrival_valid(pairs: Seq<(Seq<u8>, Seq<u8>)>, n: int)
    requires
        forall|i: int| 0 <= i < pairs.len() ==> multihash_valid((#[trigger] pairs[i]).0)
            && multiaddr_accepts(pairs[i].1),
        0 <= n <= pairs.len(),
    ensures
        arrival_pairs(pair_infos(pairs).take(n)) == Ok::<Seq<(Seq<u8>, Seq<u8>)>, BootstrapError>(
            pairs.take(n),
        ),
    decreases n,
{
    let ps = pair_infos(pairs);
    if n == 0 {
        assert(ps.take(0) =~= Seq::<PeerInfoView>::empty());
        assert(pairs.take(0) =~= Seq::<(Seq<u8>, Seq<u8>)>::empty());
    } else {
        lemma_arrival_valid(pairs, n - 1);
        assert(ps.take(n).drop_last() =~= ps.take(n - 1));
        assert(ps.take(n).last() == ps[n - 1]);
        assert(multihash_valid(pairs[n - 1].0) && multiaddr_accepts(pairs[n - 1].1));
        assert(pairs.take(n - 1).push((pairs[n - 1].0, pairs[n - 1].1)) =~= pairs.take(n));
    }
}

/// What one host publishes, another registers: the message that publishes
/// (identity, address) pairs with valid identities and addresses decodes to
/// exactly those pairs.
pub proof fn lemma_published_pairs_arrive(pairs: Seq<(Seq<u8>, Seq<u8>)>)
    requires
        forall|i: int| 0 <= i < pairs.len() ==> multihash_valid((#[trigger] pairs[i]).0)
            && multiaddr_accepts(pairs[i].1),
        peers_encodable(pair_infos(pairs)),
    ensures
        discover_decoded(discover_encoded(pair_infos(pairs))) == Some(pair_infos(pairs)),
        arrival_pairs(pair_infos(pairs)) == Ok::<Seq<(Seq<u8>, Seq<u8>)>, BootstrapError>(pairs),
{
    lemma_discover_roundtrip(pair_infos(pairs));
    lemma_arrival_valid(pairs, pairs.len() as int);
    assert(pairs.take(pairs.len() as int) =~= pairs);
    assert(pair_infos(pairs).take(pairs.len() as int) =~= pair_infos(pairs));
}

} // verus!
