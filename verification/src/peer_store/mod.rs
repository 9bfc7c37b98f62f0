//! Peer books: what this host knows of each peer, keyed by peer identity.
//!
//! A book holds at most one entry per peer identity; registering a peer that
//! is already known keeps the known entry.
pub mod simple_store;

use vstd::prelude::*;

use crate::crypto::{peer_id_of, PeerId, PublicKey};
use crate::multiaddr::{multiaddr_bytes, multiaddr_clone, multiaddr_eq};
use parity_multiaddr::Multiaddr;
use crate::network::Connectedness;
use simple_store::SimplePeerStoreError;

verus! {

/// The byte representations of some addresses, as a set.
pub open spec fn addr_set(v: Seq<Multiaddr>) -> Set<Seq<u8>> {
    Set::new(|b: Seq<u8>| exists|i: int| 0 <= i < v.len() && multiaddr_bytes(v[i]) == b)
}

/// No two addresses with the same bytes.
pub open spec fn addrs_distinct(v: Seq<Multiaddr>) -> bool {
    forall|i: int, j: int|
        0 <= i < v.len() && 0 <= j < v.len() && i != j ==> multiaddr_bytes(v[i]) != multiaddr_bytes(
            v[j],
        )
}

/// What is known of one peer.
pub struct PeerInfoView {
    pub peer_id: Seq<u8>,
    pub pubkey: Option<Seq<u8>>,
    pub connectedness: Connectedness,
    pub addrs: Set<Seq<u8>>,
}

/// What is known of one peer: its identity, possibly its public key, how
/// this host stands towards it and the addresses it can be reached at.
pub struct PeerInfo {
    peer_id: PeerId,
    pubkey: Option<PublicKey>,
    connectedness: Connectedness,
    multiaddrs: Vec<Multiaddr>,
}

/// The view of an optional public key.
pub open spec fn opt_key_view(k: Option<PublicKey>) -> Option<Seq<u8>> {
    match k {
        Some(k) => Some(k@),
        None => None,
    }
}

impl View for PeerInfo {
    type V = PeerInfoView;

    closed spec fn view(&self) -> PeerInfoView {
        PeerInfoView {
            peer_id: self.peer_id@,
            pubkey: opt_key_view(self.pubkey),
            connectedness: self.connectedness,
            addrs: addr_set(self.multiaddrs@),
        }
    }
}

/// Whether `v` holds an address with the bytes of `m`, and where.
fn find_addr(v: &Vec<Multiaddr>, m: &Multiaddr) -> (r: Option<usize>)
    ensures
        r is Some <==> addr_set(v@).contains(multiaddr_bytes(*m)),
        r matches Some(i) ==> i < v@.len() && multiaddr_bytes(v@[i as int]) == multiaddr_bytes(*m),
{
    let mut i: usize = 0;
    while i < v.len()
        invariant
            i <= v@.len(),
            forall|k: int| 0 <= k < i ==> multiaddr_bytes(v@[k]) != multiaddr_bytes(*m),
        decreases v@.len() - i,
    {
        if multiaddr_eq(&v[i], m) {
            return Some(i);
        }
        i = i + 1;
    }
    None
}

/// Adds an address to a set of distinct addresses.
fn insert_addr(v: &mut Vec<Multiaddr>, m: Multiaddr)
    requires
        addrs_distinct(old(v)@),
    ensures
        addrs_distinct(final(v)@),
        addr_set(final(v)@) == addr_set(old(v)@).insert(multiaddr_bytes(m)),
        final(v)@.len() > 0,
{
    match find_addr(v, &m) {
        Some(i) => {
            assert(addr_set(v@) =~= addr_set(v@).insert(multiaddr_bytes(m)));
        },
        None => {
            let ghost old_v = v@;
            v.push(m);
            assert(addr_set(v@) =~= addr_set(old_v).insert(multiaddr_bytes(m))) by {
                assert(v@[old_v.len() as int] == m);
                assert forall|b: Seq<u8>| addr_set(old_v).insert(multiaddr_bytes(m)).contains(b)
                    implies addr_set(v@).contains(b) by {
                    if b != multiaddr_bytes(m) {
                        let i = choose|i: int| 0 <= i < old_v.len() && multiaddr_bytes(old_v[i]) == b;
                        assert(v@[i] == old_v[i]);
                    }
                }
            }
        },
    }
}

/// A vector holding one address.
fn single_addr(m: Multiaddr) -> (r: Vec<Multiaddr>)
    ensures
        addrs_distinct(r@),
        addr_set(r@) == Set::<Seq<u8>>::empty().insert(multiaddr_bytes(m)),
{
    let mut v: Vec<Multiaddr> = Vec::new();
    assert(addr_set(v@) =~= Set::<Seq<u8>>::empty());
    insert_addr(&mut v, m);
    v
}

impl PeerInfo {
    /// The addresses of a peer are distinct.
    pub closed spec fn wf(&self) -> bool {
        addrs_distinct(self.multiaddrs@)
    }

    /// A peer known by identity only: no key, not connected, no address.
    pub fn new(peer_id: PeerId) -> (r: PeerInfo)
        ensures
            r.wf(),
            r@ == (PeerInfoView {
                peer_id: peer_id@,
                pubkey: None,
                connectedness: Connectedness::NotConnected,
                addrs: Set::empty(),
            }),
    {
        let r = PeerInfo {
            peer_id,
            pubkey: None,
            connectedness: Connectedness::NotConnected,
            multiaddrs: Vec::new(),
        };
        assert(addr_set(r.multiaddrs@) =~= Set::<Seq<u8>>::empty());
        r
    }

    /// A peer known by its key, with the given connectedness and one address.
    pub fn with_all(pubkey: PublicKey, connectedness: Connectedness, addr: Multiaddr) -> (r: PeerInfo)
        ensures
            r.wf(),
            r@ == (PeerInfoView {
                peer_id: peer_id_of(pubkey@),
                pubkey: Some(pubkey@),
                connectedness: connectedness,
                addrs: Set::empty().insert(multiaddr_bytes(addr)),
            }),
    {
        let peer_id = pubkey.peer_id();
        PeerInfo { peer_id, pubkey: Some(pubkey), connectedness, multiaddrs: single_addr(addr) }
    }

    /// A peer known by identity and one address, not connected.
    pub fn with_addr(peer_id: PeerId, addr: Multiaddr) -> (r: PeerInfo)
        ensures
            r.wf(),
            r@ == (PeerInfoView {
                peer_id: peer_id@,
                pubkey: None,
                connectedness: Connectedness::NotConnected,
                addrs: Set::empty().insert(multiaddr_bytes(addr)),
            }),
    {
        PeerInfo {
            peer_id,
            pubkey: None,
            connectedness: Connectedness::NotConnected,
            multiaddrs: single_addr(addr),
        }
    }

    /// A peer known by identity and key, not connected, with no address.
    pub fn with_pubkey(peer_id: PeerId, pubkey: PublicKey) -> (r: PeerInfo)
        ensures
            r.wf(),
            r@ == (PeerInfoView {
                peer_id: peer_id@,
                pubkey: Some(pubkey@),
                connectedness: Connectedness::NotConnected,
                addrs: Set::empty(),
            }),
    {
        let r = PeerInfo {
            peer_id,
            pubkey: Some(pubkey),
            connectedness: Connectedness::NotConnected,
            multiaddrs: Vec::new(),
        };
        assert(addr_set(r.multiaddrs@) =~= Set::<Seq<u8>>::empty());
        r
    }

    /// The identity of this peer.
    pub fn peer_id(&self) -> (r: &PeerId)
        ensures
            r@ == self@.peer_id,
    {
        &self.peer_id
    }

    /// The public key of this peer, if known.
    pub fn pubkey(&self) -> (r: Option<&PublicKey>)
        ensures
            opt_key_view(match r { Some(k) => Some(*k), None => None }) == self@.pubkey,
    {
        match &self.pubkey {
            Some(k) => Some(k),
            None => None,
        }
    }

    /// How this host stands towards this peer.
    pub fn connectedness(&self) -> (r: Connectedness)
        ensures
            r == self@.connectedness,
    {
        self.connectedness
    }

    /// One of the addresses of this peer, if it has any.
    pub fn into_multiaddr(self) -> (r: Option<Multiaddr>)
        ensures
            r is Some <==> !self@.addrs.is_empty(),
            r matches Some(m) ==> self@.addrs.contains(multiaddr_bytes(m)),
    {
        let mut v = self.multiaddrs;
        if v.len() == 0 {
            assert(addr_set(v@) =~= Set::<Seq<u8>>::empty());
            None
        } else {
            let ghost v0 = v@;
            let m = v.swap_remove(0);
            assert(addr_set(v0).contains(multiaddr_bytes(v0[0])));
            Some(m)
        }
    }

    /// Sets how this host stands towards this peer.
    pub fn set_connectedness(&mut self, connectedness: Connectedness)
        requires
            old(self).wf(),
        ensures
            final(self).wf(),
            final(self)@ == (PeerInfoView { connectedness: connectedness, ..old(self)@ }),
    {
        self.connectedness = connectedness;
    }

    /// Records the public key of this peer, if the peer's identity is derived
    /// from it; otherwise nothing changes and the error names both.
    pub fn set_pubkey(&mut self, pubkey: PublicKey) -> (r: Result<(), SimplePeerStoreError>)
        requires
            old(self).wf(),
        ensures
            final(self).wf(),
            r is Ok <==> peer_id_of(pubkey@) == old(self)@.peer_id,
            r is Ok ==> final(self)@ == (PeerInfoView { pubkey: Some(pubkey@), ..old(self)@ }),
            r is Err ==> final(self)@ == old(self)@,
            r matches Err(SimplePeerStoreError::PeerIdNotMatchPubKey { peer_id, pubkey: k }) ==> peer_id@
                == old(self)@.peer_id && k@ == pubkey@,
    {
        let derived = pubkey.peer_id();
        if !derived.same(&self.peer_id) {
            Err(SimplePeerStoreError::PeerIdNotMatchPubKey { peer_id: self.peer_id.clone(), pubkey })
        } else {
            self.pubkey = Some(pubkey);
            Ok(())
        }
    }

    /// Adds an address of this peer.
    pub fn add_multiaddr(&mut self, addr: Multiaddr)
        requires
            old(self).wf(),
        ensures
            final(self).wf(),
            final(self)@ == (PeerInfoView {
                addrs: old(self)@.addrs.insert(multiaddr_bytes(addr)),
                ..old(self)@
            }),
    {
        insert_addr(&mut self.multiaddrs, addr);
    }

    /// Copies of the addresses of this peer, without repeats.
    pub fn multiaddrs(&self) -> (r: Vec<Multiaddr>)
        requires
            self.wf(),
        ensures
            addrs_distinct(r@),
            addr_set(r@) == self@.addrs,
    {
        let mut out: Vec<Multiaddr> = Vec::new();
        let mut i: usize = 0;
        while i < self.multiaddrs.len()
            invariant
                self.wf(),
                i <= self.multiaddrs@.len(),
                out@.len() == i,
                forall|k: int| 0 <= k < i ==> multiaddr_bytes(#[trigger] out@[k]) == multiaddr_bytes(
                    self.multiaddrs@[k],
                ),
            decreases self.multiaddrs@.len() - i,
        {
            out.push(multiaddr_clone(&self.multiaddrs[i]));
            i = i + 1;
        }
        assert(addr_set(out@) =~= addr_set(self.multiaddrs@)) by {
            assert forall|b: Seq<u8>| addr_set(self.multiaddrs@).contains(b) implies addr_set(out@).contains(b) by {
                let k = choose|k: int| 0 <= k < self.multiaddrs@.len() && multiaddr_bytes(self.multiaddrs@[k]) == b;
                assert(multiaddr_bytes(out@[k]) == b);
            }
        }
        out
    }

    /// A copy of one of the addresses of this peer, if it has any.
    fn first_multiaddr(&self) -> (r: Option<Multiaddr>)
        ensures
            r is Some <==> !self@.addrs.is_empty(),
            r matches Some(m) ==> self@.addrs.contains(multiaddr_bytes(m)),
    {
        if self.multiaddrs.len() == 0 {
            assert(addr_set(self.multiaddrs@) =~= Set::<Seq<u8>>::empty());
            None
        } else {
            assert(addr_set(self.multiaddrs@).contains(multiaddr_bytes(self.multiaddrs@[0])));
            Some(multiaddr_clone(&self.multiaddrs[0]))
        }
    }

    /// A copy of this record.
    pub fn duplicate(&self) -> (r: PeerInfo)
        requires
            self.wf(),
        ensures
            r.wf(),
            r@ == self@,
    {
        let pubkey = match &self.pubkey {
            Some(k) => Some(k.clone()),
            None => None,
        };
        PeerInfo {
            peer_id: self.peer_id.clone(),
            pubkey,
            connectedness: self.connectedness,
            multiaddrs: self.multiaddrs(),
        }
    }
}

/// Why a peer book refused a key.
pub enum PeerStoreError {
    /// The identity is not derived from the key.
    PeerIdNotMatchPubKey { peer_id: PeerId, pubkey: PublicKey },
}

// ---------------------------------------------------------------------------
// Books: vectors of peer records with distinct identities.

/// No two records of a book share an identity, and each record is well formed.
pub closed spec fn book_wf(s: Seq<PeerInfo>) -> bool {
    &&& forall|i: int| 0 <= i < s.len() ==> (#[trigger] s[i]).wf()
    &&& forall|i: int, j: int|
        0 <= i < s.len() && 0 <= j < s.len() && i != j ==> (#[trigger] s[i])@.peer_id != (
        #[trigger] s[j])@.peer_id
}

/// A book as a map from peer identity to what is known of the peer.
pub closed spec fn book_view(s: Seq<PeerInfo>) -> Map<Seq<u8>, PeerInfoView> {
    Map::new(
        |k: Seq<u8>| exists|i: int| 0 <= i < s.len() && (#[trigger] s[i])@.peer_id == k,
        |k: Seq<u8>| s[choose|i: int| 0 <= i < s.len() && (#[trigger] s[i])@.peer_id == k]@,
    )
}

proof fn lemma_book_entry(s: Seq<PeerInfo>, i: int)
    requires
        book_wf(s),
        0 <= i < s.len(),
    ensures
        book_view(s).contains_key(s[i]@.peer_id),
        book_view(s)[s[i]@.peer_id] == s[i]@,
{
    let k = s[i]@.peer_id;
    assert(exists|j: int| 0 <= j < s.len() && (#[trigger] s[j])@.peer_id == k);
    let j = choose|j: int| 0 <= j < s.len() && (#[trigger] s[j])@.peer_id == k;
    assert(j == i);
}

/// Each record of a well-formed book is well formed.
pub(crate) proof fn lemma_book_wf_entry(s: Seq<PeerInfo>, i: int)
    requires
        book_wf(s),
        0 <= i < s.len(),
    ensures
        s[i].wf(),
{
}

proof fn lemma_book_push(s: Seq<PeerInfo>, x: PeerInfo)
    requires
        book_wf(s),
        x.wf(),
        !book_view(s).contains_key(x@.peer_id),
    ensures
        book_wf(s.push(x)),
        book_view(s.push(x)) == book_view(s).insert(x@.peer_id, x@),
{
    let t = s.push(x);
    assert forall|i: int| 0 <= i < s.len() implies (#[trigger] s[i])@.peer_id != x@.peer_id by {
        if s[i]@.peer_id == x@.peer_id {
            assert(book_view(s).contains_key(x@.peer_id));
        }
    }
    assert(book_wf(t)) by {
        assert forall|i: int| 0 <= i < t.len() implies (#[trigger] t[i]).wf() by {
            if i < s.len() { assert(t[i] == s[i]); }
        }
        assert forall|i: int, j: int|
            0 <= i < t.len() && 0 <= j < t.len() && i != j implies (#[trigger] t[i])@.peer_id != (
            #[trigger] t[j])@.peer_id by {
            if i < s.len() && j < s.len() {
                assert(t[i] == s[i] && t[j] == s[j]);
            } else if i < s.len() {
                assert(t[i] == s[i]);
            } else {
                assert(t[j] == s[j]);
            }
        }
    }
    assert(book_view(t) =~= book_view(s).insert(x@.peer_id, x@)) by {
        assert forall|k: Seq<u8>| book_view(t).contains_key(k) <==> book_view(s).insert(x@.peer_id, x@).contains_key(k) by {
            if book_view(t).contains_key(k) {
                let i = choose|i: int| 0 <= i < t.len() && (#[trigger] t[i])@.peer_id == k;
                if i < s.len() { assert(s[i] == t[i]); }
            }
            if book_view(s).contains_key(k) {
                let i = choose|i: int| 0 <= i < s.len() && (#[trigger] s[i])@.peer_id == k;
                assert(t[i] == s[i]);
            }
            if k == x@.peer_id {
                assert(t[s.len() as int] == x);
            }
        }
        assert forall|k: Seq<u8>| book_view(t).contains_key(k) implies book_view(t)[k] == book_view(s).insert(x@.peer_id, x@)[k] by {
            let i = choose|i: int| 0 <= i < t.len() && (#[trigger] t[i])@.peer_id == k;
            lemma_book_entry(t, i);
            if i < s.len() {
                assert(t[i] == s[i]);
                lemma_book_entry(s, i);
            } else {
                assert(t[i] == x);
            }
        }
    }
}

proof fn lemma_book_update(s: Seq<PeerInfo>, i: int, x: PeerInfo)
    requires
        book_wf(s),
        0 <= i < s.len(),
        x.wf(),
        x@.peer_id == s[i]@.peer_id,
    ensures
        book_wf(s.update(i, x)),
        book_view(s.update(i, x)) == book_view(s).insert(x@.peer_id, x@),
{
    let t = s.update(i, x);
    assert(book_wf(t)) by {
        assert forall|a: int| 0 <= a < t.len() implies (#[trigger] t[a]).wf() by {
            if a != i { assert(t[a] == s[a]); }
        }
        assert forall|a: int, b: int|
            0 <= a < t.len() && 0 <= b < t.len() && a != b implies (#[trigger] t[a])@.peer_id != (
            #[trigger] t[b])@.peer_id by {
            assert(t[a]@.peer_id == s[a]@.peer_id);
            assert(t[b]@.peer_id == s[b]@.peer_id);
        }
    }
    assert(book_view(t) =~= book_view(s).insert(x@.peer_id, x@)) by {
        assert forall|k: Seq<u8>| book_view(t).contains_key(k) <==> book_view(s).insert(x@.peer_id, x@).contains_key(k) by {
            if book_view(t).contains_key(k) {
                let a = choose|a: int| 0 <= a < t.len() && (#[trigger] t[a])@.peer_id == k;
                assert(t[a]@.peer_id == s[a]@.peer_id);
            }
            if book_view(s).contains_key(k) {
                let a = choose|a: int| 0 <= a < s.len() && (#[trigger] s[a])@.peer_id == k;
                assert(t[a]@.peer_id == s[a]@.peer_id);
            }
            if k == x@.peer_id {
                assert(t[i] == x);
            }
        }
        assert forall|k: Seq<u8>| book_view(t).contains_key(k) implies book_view(t)[k] == book_view(s).insert(x@.peer_id, x@)[k] by {
            let a = choose|a: int| 0 <= a < t.len() && (#[trigger] t[a])@.peer_id == k;
            lemma_book_entry(t, a);
            if a != i {
                assert(t[a] == s[a]);
                lemma_book_entry(s, a);
            } else {
                assert(t[a] == x);
            }
        }
    }
}

/// The empty book.
pub(crate) fn book_new() -> (r: Vec<PeerInfo>)
    ensures
        book_wf(r@),
        book_view(r@) == Map::<Seq<u8>, PeerInfoView>::empty(),
{
    let r: Vec<PeerInfo> = Vec::new();
    assert(book_view(r@) =~= Map::<Seq<u8>, PeerInfoView>::empty());
    r
}

/// Where the record of a peer stands in a book, if the book has one.
pub(crate) fn book_find(book: &Vec<PeerInfo>, peer_id: &PeerId) -> (r: Option<usize>)
    requires
        book_wf(book@),
    ensures
        r is Some <==> book_view(book@).contains_key(peer_id@),
        r matches Some(i) ==> i < book@.len() && book@[i as int]@.peer_id == peer_id@
            && book_view(book@)[peer_id@] == book@[i as int]@,
{
    let mut i: usize = 0;
    while i < book.len()
        invariant
            i <= book@.len(),
            book_wf(book@),
            forall|k: int| 0 <= k < i ==> (#[trigger] book@[k])@.peer_id != peer_id@,
        decreases book@.len() - i,
    {
        if book[i].peer_id.same(peer_id) {
            proof { lemma_book_entry(book@, i as int); }
            return Some(i);
        }
        i = i + 1;
    }
    None
}

/// Adds the record of a peer the book does not know.
pub(crate) fn book_insert_new(book: &mut Vec<PeerInfo>, info: PeerInfo)
    requires
        book_wf(old(book)@),
        info.wf(),
        !book_view(old(book)@).contains_key(info@.peer_id),
    ensures
        book_wf(final(book)@),
        book_view(final(book)@) == book_view(old(book)@).insert(info@.peer_id, info@),
{
    proof { lemma_book_push(book@, info); }
    book.push(info);
}

/// Adds the record of a peer unless the book already knows the peer.
pub(crate) fn book_register(book: &mut Vec<PeerInfo>, info: PeerInfo)
    requires
        book_wf(old(book)@),
        info.wf(),
    ensures
        book_wf(final(book)@),
        book_view(final(book)@) == if book_view(old(book)@).contains_key(info@.peer_id) {
            book_view(old(book)@)
        } else {
            book_view(old(book)@).insert(info@.peer_id, info@)
        },
{
    match book_find(book, &info.peer_id) {
        Some(_) => {},
        None => book_insert_new(book, info),
    }
}

/// Sets how this host stands towards the peer whose record is at `i`.
pub(crate) fn book_set_connectedness(book: &mut Vec<PeerInfo>, i: usize, c: Connectedness)
    requires
        i < old(book)@.len(),
        book_wf(old(book)@),
    ensures
        book_wf(final(book)@),
        book_view(final(book)@) == book_view(old(book)@).insert(
            old(book)@[i as int]@.peer_id,
            PeerInfoView { connectedness: c, ..old(book)@[i as int]@ },
        ),
{
    let ghost s = book@;
    proof { assert(s[i as int].wf()); }
    let mut info = book.remove(i);
    info.set_connectedness(c);
    book.insert(i, info);
    proof {
        assert(book@ =~= s.update(i as int, info));
        lemma_book_update(s, i as int, info);
    }
}

/// Records the public key of the peer whose record is at `i`.
pub(crate) fn book_set_pubkey(book: &mut Vec<PeerInfo>, i: usize, pubkey: PublicKey)
    requires
        i < old(book)@.len(),
        book_wf(old(book)@),
    ensures
        book_wf(final(book)@),
        book_view(final(book)@) == book_view(old(book)@).insert(
            old(book)@[i as int]@.peer_id,
            PeerInfoView { pubkey: Some(pubkey@), ..old(book)@[i as int]@ },
        ),
{
    let ghost s = book@;
    proof { assert(s[i as int].wf()); }
    let mut info = book.remove(i);
    info.pubkey = Some(pubkey);
    book.insert(i, info);
    proof {
        assert(book@ =~= s.update(i as int, info));
        lemma_book_update(s, i as int, info);
    }
}

/// Adds an address of the peer whose record is at `i`.
pub(crate) fn book_add_multiaddr(book: &mut Vec<PeerInfo>, i: usize, addr: Multiaddr)
    requires
        i < old(book)@.len(),
        book_wf(old(book)@),
    ensures
        book_wf(final(book)@),
        book_view(final(book)@) == book_view(old(book)@).insert(
            old(book)@[i as int]@.peer_id,
            PeerInfoView {
                addrs: old(book)@[i as int]@.addrs.insert(multiaddr_bytes(addr)),
                ..old(book)@[i as int]@
            },
        ),
{
    let ghost s = book@;
    proof { assert(s[i as int].wf()); }
    let mut info = book.remove(i);
    info.add_multiaddr(addr);
    book.insert(i, info);
    proof {
        assert(book@ =~= s.update(i as int, info));
        lemma_book_update(s, i as int, info);
    }
}

/// Whether `r` is an acceptable answer to a request for at most `size`
/// peers with an address: each pair is a known peer with one of its
/// addresses, no peer comes twice, and fewer than `size` pairs come only when
/// every known peer with an address is among them.
pub open spec fn chosen(book: Map<Seq<u8>, PeerInfoView>, size: nat, r: Seq<(Seq<u8>, Seq<u8>)>) -> bool {
    &&& r.len() <= size
    &&& forall|k: int| 0 <= k < r.len() ==> book.contains_key((#[trigger] r[k]).0)
        && book[r[k].0].addrs.contains(r[k].1)
    &&& forall|a: int, b: int| 0 <= a < r.len() && 0 <= b < r.len() && a != b ==> (#[trigger] r[a]).0 != (#[trigger] r[b]).0
    &&& r.len() < size ==> forall|id: Seq<u8>| #[trigger] book.contains_key(id) && !book[id].addrs.is_empty()
        ==> exists|k: int| 0 <= k < r.len() && r[k].0 == id
}

/// The views of some (peer, address) pairs.
pub open spec fn pair_views(r: Seq<(PeerId, Multiaddr)>) -> Seq<(Seq<u8>, Seq<u8>)> {
    r.map_values(|p: (PeerId, Multiaddr)| (p.0@, multiaddr_bytes(p.1)))
}

/// At most `size` known peers that have an address, each with one of its
/// addresses.
pub(crate) fn book_choose(book: &Vec<PeerInfo>, size: usize) -> (r: Vec<(PeerId, Multiaddr)>)
    requires
        book_wf(book@),
    ensures
        chosen(book_view(book@), size as nat, pair_views(r@)),
{
    let mut out: Vec<(PeerId, Multiaddr)> = Vec::new();
    let ghost mut idx: Seq<int> = Seq::empty();
    let mut i: usize = 0;
    while i < book.len() && out.len() < size
        invariant
            book_wf(book@),
            i <= book@.len(),
            out@.len() <= size,
            idx.len() == out@.len(),
            forall|k: int| 0 <= k < idx.len() ==> 0 <= #[trigger] idx[k] < i,
            forall|a: int, b: int| 0 <= a < b < idx.len() ==> #[trigger] idx[a] < #[trigger] idx[b],
            forall|k: int| 0 <= k < idx.len() ==> (#[trigger] out@[k]).0@ == book@[idx[k]]@.peer_id
                && book@[idx[k]]@.addrs.contains(multiaddr_bytes(out@[k].1)),
            forall|j: int| 0 <= j < i && !(#[trigger] book@[j])@.addrs.is_empty() ==> exists|k: int|
                0 <= k < idx.len() && idx[k] == j,
        decreases book@.len() - i,
    {
        let ghost idx0 = idx;
        match book[i].first_multiaddr() {
            Some(m) => {
                out.push((book[i].peer_id.clone(), m));
                proof { idx = idx.push(i as int); }
            },
            None => {},
        }
        proof {
            assert forall|j: int| 0 <= j < i + 1 && !(#[trigger] book@[j])@.addrs.is_empty() implies exists|k: int|
                0 <= k < idx.len() && idx[k] == j by {
                if j < i {
                    let k = choose|k: int| 0 <= k < idx0.len() && idx0[k] == j;
                    assert(idx[k] == idx0[k]);
                } else {
                    assert(idx[idx.len() - 1] == j);
                }
            }
        }
        i = i + 1;
    }
    let ghost v = book_view(book@);
    let ghost pv = pair_views(out@);
    assert forall|k: int| 0 <= k < pv.len() implies v.contains_key((#[trigger] pv[k]).0)
        && v[pv[k].0].addrs.contains(pv[k].1) by {
        lemma_book_entry(book@, idx[k]);
    }
    assert forall|a: int, b: int| 0 <= a < pv.len() && 0 <= b < pv.len() && a != b implies (#[trigger] pv[a]).0 != (#[trigger] pv[b]).0 by {
        if a < b {
            assert(idx[a] < idx[b]);
        } else {
            assert(idx[b] < idx[a]);
        }
    }
    assert(pv.len() < size ==> forall|id: Seq<u8>| #[trigger] v.contains_key(id) && !v[id].addrs.is_empty()
        ==> exists|k: int| 0 <= k < pv.len() && pv[k].0 == id) by {
        if pv.len() < size {
            assert forall|id: Seq<u8>| #[trigger] v.contains_key(id) && !v[id].addrs.is_empty()
                implies exists|k: int| 0 <= k < pv.len() && pv[k].0 == id by {
                let j = choose|j: int| 0 <= j < book@.len() && (#[trigger] book@[j])@.peer_id == id;
                lemma_book_entry(book@, j);
                let k = choose|k: int| 0 <= k < idx.len() && idx[k] == j;
                assert(pv[k].0 == id);
            }
        }
    }
    out
}

/// A peer book.
pub struct PeerStore {
    book: Vec<PeerInfo>,
}

impl View for PeerStore {
    type V = Map<Seq<u8>, PeerInfoView>;

    closed spec fn view(&self) -> Map<Seq<u8>, PeerInfoView> {
        book_view(self.book@)
    }
}

/// The record of a peer known by identity only.
pub open spec fn fresh_view(peer_id: Seq<u8>) -> PeerInfoView {
    PeerInfoView {
        peer_id: peer_id,
        pubkey: None,
        connectedness: Connectedness::NotConnected,
        addrs: Set::empty(),
    }
}

/// The book after `PeerStore::set_pubkey` records a key.
pub open spec fn book_with_pubkey(book: Map<Seq<u8>, PeerInfoView>, id: Seq<u8>, key: Seq<u8>) -> Map<
    Seq<u8>,
    PeerInfoView,
> {
    book.insert(
        id,
        if book.contains_key(id) {
            PeerInfoView { pubkey: Some(key), ..book[id] }
        } else {
            PeerInfoView { pubkey: Some(key), ..fresh_view(id) }
        },
    )
}

/// A key recorded for a peer is the key the book gives back for it, and
/// every other peer's record stays as it was.
pub proof fn lemma_recorded_key_is_read_back(
    book: Map<Seq<u8>, PeerInfoView>,
    id: Seq<u8>,
    key: Seq<u8>,
    other: Seq<u8>,
)
    requires
        other != id,
    ensures
        book_with_pubkey(book, id, key).contains_key(id),
        book_with_pubkey(book, id, key)[id].pubkey == Some(key),
        book_with_pubkey(book, id, key).contains_key(other) == book.contains_key(other),
        book.contains_key(other) ==> book_with_pubkey(book, id, key)[other] == book[other],
{
}

/// The book after registering a record: unchanged if the book knows the
/// peer, else with the record added.
pub open spec fn book_after_register(book: Map<Seq<u8>, PeerInfoView>, info: PeerInfoView) -> Map<
    Seq<u8>,
    PeerInfoView,
> {
    if book.contains_key(info.peer_id) {
        book
    } else {
        book.insert(info.peer_id, info)
    }
}

/// Registering a peer the book already knows leaves its record as it was;
/// registering an unknown peer makes it known with the registered record;
/// no other peer's record changes.
pub proof fn lemma_register_keeps_known_peers(
    book: Map<Seq<u8>, PeerInfoView>,
    info: PeerInfoView,
    other: Seq<u8>,
)
    requires
        other != info.peer_id,
    ensures
        book_after_register(book, info).contains_key(info.peer_id),
        book.contains_key(info.peer_id) ==> book_after_register(book, info)[info.peer_id]
            == book[info.peer_id],
        !book.contains_key(info.peer_id) ==> book_after_register(book, info)[info.peer_id] == info,
        book_after_register(book, info).contains_key(other) == book.contains_key(other),
        book.contains_key(other) ==> book_after_register(book, info)[other] == book[other],
{
}

impl PeerStore {
    /// The book holds at most one record per identity.
    pub closed spec fn wf(&self) -> bool {
        book_wf(self.book@)
    }

    /// An empty book.
    pub fn new() -> (r: PeerStore)
        ensures
            r.wf(),
            r@ == Map::<Seq<u8>, PeerInfoView>::empty(),
    {
        PeerStore { book: book_new() }
    }

    /// Whether the book knows the peer.
    pub fn contains(&self, peer_id: &PeerId) -> (r: bool)
        requires
            self.wf(),
        ensures
            r == self@.contains_key(peer_id@),
    {
        book_find(&self.book, peer_id).is_some()
    }

    /// Adds the record of a peer, unless the book already knows the peer.
    pub fn register(&mut self, peer_info: PeerInfo)
        requires
            old(self).wf(),
            peer_info.wf(),
        ensures
            final(self).wf(),
            final(self)@ == book_after_register(old(self)@, peer_info@),
    {
        book_register(&mut self.book, peer_info)
    }

    /// At most `size` known peers that have an address, each with one of its
    /// addresses.
    pub fn choose_peers(&self, size: usize) -> (r: Vec<(PeerId, Multiaddr)>)
        requires
            self.wf(),
        ensures
            chosen(self@, size as nat, pair_views(r@)),
    {
        book_choose(&self.book, size)
    }

    /// The public key of the peer, if the book knows the peer and its key.
    pub fn get_pubkey(&self, peer_id: &PeerId) -> (r: Option<PublicKey>)
        requires
            self.wf(),
        ensures
            opt_key_view(r) == if self@.contains_key(peer_id@) {
                self@[peer_id@].pubkey
            } else {
                None
            },
    {
        match book_find(&self.book, peer_id) {
            Some(i) => match &self.book[i].pubkey {
                Some(k) => Some(k.clone()),
                None => None,
            },
            None => None,
        }
    }

    /// Records the public key of the peer, if its identity is derived from
    /// the key; otherwise nothing changes and the error names both.
    pub fn set_pubkey(&mut self, peer_id: &PeerId, pubkey: PublicKey) -> (r: Result<(), PeerStoreError>)
        requires
            old(self).wf(),
        ensures
            final(self).wf(),
            r is Ok <==> peer_id@ == peer_id_of(pubkey@),
            r is Err ==> final(self)@ == old(self)@,
            r matches Err(PeerStoreError::PeerIdNotMatchPubKey { peer_id: p, pubkey: k }) ==> p@
                == peer_id@ && k@ == pubkey@,
            r is Ok ==> final(self)@ == book_with_pubkey(old(self)@, peer_id@, pubkey@),
    {
        let derived = pubkey.peer_id();
        if !peer_id.same(&derived) {
            return Err(PeerStoreError::PeerIdNotMatchPubKey { peer_id: peer_id.clone(), pubkey });
        }
        match book_find(&self.book, peer_id) {
            Some(i) => book_set_pubkey(&mut self.book, i, pubkey),
            None => {
                let info = PeerInfo::with_pubkey(peer_id.clone(), pubkey);
                book_insert_new(&mut self.book, info);
            },
        }
        Ok(())
    }

    /// How this host stands towards the peer: not connected if the book does
    /// not know the peer.
    pub fn get_connectedness(&self, peer_id: &PeerId) -> (r: Connectedness)
        requires
            self.wf(),
        ensures
            r == if self@.contains_key(peer_id@) {
                self@[peer_id@].connectedness
            } else {
                Connectedness::NotConnected
            },
    {
        match book_find(&self.book, peer_id) {
            Some(i) => self.book[i].connectedness,
            None => Connectedness::NotConnected,
        }
    }

    /// Sets how this host stands towards a known peer; a peer the book does
    /// not know is added by identity only, not connected.
    pub fn set_connectedness(&mut self, peer_id: &PeerId, connectedness: Connectedness)
        requires
            old(self).wf(),
        ensures
            final(self).wf(),
            final(self)@ == old(self)@.insert(
                peer_id@,
                if old(self)@.contains_key(peer_id@) {
                    PeerInfoView { connectedness: connectedness, ..old(self)@[peer_id@] }
                } else {
                    fresh_view(peer_id@)
                },
            ),
    {
        match book_find(&self.book, peer_id) {
            Some(i) => book_set_connectedness(&mut self.book, i, connectedness),
            None => book_insert_new(&mut self.book, PeerInfo::new(peer_id.clone())),
        }
    }

    /// The addresses of the peer, if the book knows it.
    pub fn get_multiaddrs(&self, peer_id: &PeerId) -> (r: Option<Vec<Multiaddr>>)
        requires
            self.wf(),
        ensures
            r is Some <==> self@.contains_key(peer_id@),
            r matches Some(v) ==> addrs_distinct(v@) && addr_set(v@) == self@[peer_id@].addrs,
    {
        match book_find(&self.book, peer_id) {
            Some(i) => {
                proof { assert(self.book@[i as int].wf()); }
                Some(self.book[i].multiaddrs())
            },
            None => None,
        }
    }

    /// Adds an address of the peer; a peer the book does not know is added
    /// with this address, not connected.
    pub fn set_multiaddr(&mut self, peer_id: &PeerId, addr: Multiaddr)
        requires
            old(self).wf(),
        ensures
            final(self).wf(),
            final(self)@ == old(self)@.insert(
                peer_id@,
                if old(self)@.contains_key(peer_id@) {
                    PeerInfoView {
                        addrs: old(self)@[peer_id@].addrs.insert(multiaddr_bytes(addr)),
                        ..old(self)@[peer_id@]
                    }
                } else {
                    PeerInfoView {
                        addrs: Set::empty().insert(multiaddr_bytes(addr)),
                        ..fresh_view(peer_id@)
                    }
                },
            ),
    {
        match book_find(&self.book, peer_id) {
            Some(i) => book_add_multiaddr(&mut self.book, i, addr),
            None => book_insert_new(&mut self.book, PeerInfo::with_addr(peer_id.clone(), addr)),
        }
    }
}

impl Default for PeerStore {
    fn default() -> (r: PeerStore)
        ensures
            r.wf(),
            r@ == Map::<Seq<u8>, PeerInfoView>::empty(),
    {
        PeerStore::new()
    }
}

} // verus!
