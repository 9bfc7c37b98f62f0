//! The simple peer book: keys are recorded only for peers it does not know
//! yet, and it takes lists of (peer, address) pairs from the bootstrap
//! protocol.
use vstd::prelude::*;

use crate::crypto::{peer_id_of, PeerId, PublicKey};
use crate::multiaddr::{multiaddr_bytes, multiaddr_clone};
use crate::network::Connectedness;
use crate::peer_store::{
    addr_set, addrs_distinct, book_add_multiaddr, book_after_register, book_choose, book_find, book_insert_new,
    book_new, book_register, book_set_connectedness, book_view, book_wf, chosen, fresh_view,
    opt_key_view, pair_views, PeerInfoView,
};
pub use crate::peer_store::PeerInfo;
use parity_multiaddr::Multiaddr;

verus! {

/// Why the simple book refused a key.
pub enum SimplePeerStoreError {
    /// The identity is not derived from the key.
    PeerIdNotMatchPubKey { peer_id: PeerId, pubkey: PublicKey },
}

/// The book after registering each (peer, address) pair in turn, each pair
/// added unless the book already knows the peer.
pub open spec fn registered(
    book: Map<Seq<u8>, PeerInfoView>,
    pairs: Seq<(Seq<u8>, Seq<u8>)>,
) -> Map<Seq<u8>, PeerInfoView>
    decreases pairs.len(),
{
    if pairs.len() == 0 {
        book
    } else {
        let before = registered(book, pairs.drop_last());
        let (id, addr) = pairs.last();
        if before.contains_key(id) {
            before
        } else {
            before.insert(id, PeerInfoView { addrs: Set::empty().insert(addr), ..fresh_view(id) })
        }
    }
}

/// Registering pairs keeps every peer the book knew, with its record as it
/// was, and adds exactly the peers of the pairs that it did not know: each
/// with the record of a peer known only by the address of its first pair,
/// with no key and not connected.
pub proof fn lemma_registered_pairs(book: Map<Seq<u8>, PeerInfoView>, pairs: Seq<(Seq<u8>, Seq<u8>)>)
    ensures
        forall|id: Seq<u8>|
            #[trigger] book.contains_key(id) ==> registered(book, pairs).contains_key(id) && registered(book, pairs)[id]
                == book[id],
        forall|id: Seq<u8>|
            #[trigger] registered(book, pairs).contains_key(id) ==> book.contains_key(id) || exists|j: int|
                0 <= j < pairs.len() && (#[trigger] pairs[j]).0 == id,
        forall|k: int|
            0 <= k < pairs.len() && !book.contains_key(#[trigger] pairs[k].0) && (forall|j: int|
                0 <= j < k ==> (#[trigger] pairs[j]).0 != pairs[k].0) ==> registered(book, pairs).contains_key(pairs[k].0)
                && registered(book, pairs)[pairs[k].0] == (PeerInfoView {
                peer_id: pairs[k].0,
                pubkey: None,
                connectedness: Connectedness::NotConnected,
                addrs: Set::empty().insert(pairs[k].1),
            }),
    decreases pairs.len(),
{
    if pairs.len() > 0 {
        let init = pairs.drop_last();
        lemma_registered_pairs(book, init);
        let n = pairs.len() - 1;
        assert forall|id: Seq<u8>| #[trigger] registered(book, pairs).contains_key(id) implies book.contains_key(id)
            || exists|j: int| 0 <= j < pairs.len() && (#[trigger] pairs[j]).0 == id by {
            if !book.contains_key(id) && id != pairs[n].0 {
                let j = choose|j: int| 0 <= j < init.len() && (#[trigger] init[j]).0 == id;
                assert(pairs[j] == init[j]);
            }
        }
        assert forall|k: int|
            0 <= k < pairs.len() && !book.contains_key(#[trigger] pairs[k].0) && (forall|j: int|
                0 <= j < k ==> (#[trigger] pairs[j]).0 != pairs[k].0) implies registered(book, pairs).contains_key(pairs[k].0)
            && registered(book, pairs)[pairs[k].0] == (PeerInfoView {
            peer_id: pairs[k].0,
            pubkey: None,
            connectedness: Connectedness::NotConnected,
            addrs: Set::empty().insert(pairs[k].1),
        }) by {
            if k < n {
                assert(init[k] == pairs[k]);
                assert forall|j: int| 0 <= j < k implies (#[trigger] init[j]).0 != init[k].0 by {
                    assert(init[j] == pairs[j]);
                }
            } else {
                let before = registered(book, init);
                if before.contains_key(pairs[k].0) {
                    let j = choose|j: int| 0 <= j < init.len() && (#[trigger] init[j]).0 == pairs[k].0;
                    assert(init[j] == pairs[j]);
                    assert(pairs[j].0 != pairs[k].0);
                }
                assert(fresh_view(pairs[k].0).pubkey is None);
            }
        }
    }
}

/// A simple peer book.
pub struct SimplePeerStore {
    book: Vec<PeerInfo>,
}

impl View for SimplePeerStore {
    type V = Map<Seq<u8>, PeerInfoView>;

    closed spec fn view(&self) -> Map<Seq<u8>, PeerInfoView> {
        book_view(self.book@)
    }
}

impl SimplePeerStore {
    /// The book holds at most one record per identity.
    pub closed spec fn wf(&self) -> bool {
        book_wf(self.book@)
    }

    /// An empty book.
    pub fn new() -> (r: SimplePeerStore)
        ensures
            r.wf(),
            r@ == Map::<Seq<u8>, PeerInfoView>::empty(),
    {
        SimplePeerStore { book: book_new() }
    }

    /// Whether the book knows the peer.
    pub fn contains(&self, peer_id: &PeerId) -> (r: bool)
        requires
            self.wf(),
        ensures
            r == self@.contains_key(peer_id@),
    {
        book_find(&self.book, peer_id).is_some()
    }

    /// Adds the record of a peer, unless the book already knows the peer.
    pub fn register(&mut self, peer_info: PeerInfo)
        requires
            old(self).wf(),
            peer_info.wf(),
        ensures
            final(self).wf(),
            final(self)@ == book_after_register(old(self)@, peer_info@),
    {
        book_register(&mut self.book, peer_info)
    }

    /// Registers each (peer, address) pair in turn, as a peer known by that
    /// address, unless the book already knows the peer.
    pub fn register_peers(&mut self, peers: Vec<(PeerId, Multiaddr)>)
        requires
            old(self).wf(),
        ensures
            final(self).wf(),
            final(self)@ == registered(old(self)@, pair_views(peers@)),
            forall|id: Seq<u8>|
                #[trigger] old(self)@.contains_key(id) ==> final(self)@.contains_key(id) && final(self)@[id] == old(self)@[id],
            forall|k: int|
                0 <= k < peers@.len() && !old(self)@.contains_key(#[trigger] peers@[k].0@) && (forall|j: int|
                    0 <= j < k ==> (#[trigger] peers@[j]).0@ != peers@[k].0@) ==> final(self)@.contains_key(peers@[k].0@)
                    && final(self)@[peers@[k].0@] == (PeerInfoView {
                    peer_id: peers@[k].0@,
                    pubkey: None,
                    connectedness: Connectedness::NotConnected,
                    addrs: Set::empty().insert(multiaddr_bytes(peers@[k].1)),
                }),
    {
        let ghost start = self@;
        let ghost pv = pair_views(peers@);
        let mut i: usize = 0;
        while i < peers.len()
            invariant
                self.wf(),
                i <= peers@.len(),
                pv == pair_views(peers@),
                self@ == registered(start, pv.take(i as int)),
            decreases peers@.len() - i,
        {
            let peer_id = peers[i].0.clone();
            let addr = multiaddr_clone(&peers[i].1);
            proof {
                assert(pv.take(i + 1).drop_last() =~= pv.take(i as int));
                assert(pv.take(i + 1).last() == pv[i as int]);
            }
            self.register(PeerInfo::with_addr(peer_id, addr));
            i = i + 1;
        }
        assert(pv.take(peers@.len() as int) =~= pv);
        proof {
            lemma_registered_pairs(start, pv);
            assert forall|k: int|
                0 <= k < peers@.len() && !start.contains_key(#[trigger] peers@[k].0@) && (forall|j: int|
                    0 <= j < k ==> (#[trigger] peers@[j]).0@ != peers@[k].0@) implies self@.contains_key(peers@[k].0@)
                && self@[peers@[k].0@] == (PeerInfoView {
                peer_id: peers@[k].0@,
                pubkey: None,
                connectedness: Connectedness::NotConnected,
                addrs: Set::empty().insert(multiaddr_bytes(peers@[k].1)),
            }) by {
                assert(pv[k] == (peers@[k].0@, multiaddr_bytes(peers@[k].1)));
                assert forall|j: int| 0 <= j < k implies (#[trigger] pv[j]).0 != pv[k].0 by {
                    assert(pv[j].0 == peers@[j].0@);
                }
            }
        }
    }

    /// At most `size` known peers that have an address, each with one of its
    /// addresses.
    pub fn choose_peers(&self, size: usize) -> (r: Vec<(PeerId, Multiaddr)>)
        requires
            self.wf(),
        ensures
            chosen(self@, size as nat, pair_views(r@)),
    {
        book_choose(&self.book, size)
    }

    /// The public key of the peer, if the book knows the peer and its key.
    pub fn get_pubkey(&self, peer_id: &PeerId) -> (r: Option<PublicKey>)
        requires
            self.wf(),
        ensures
            opt_key_view(r) == if self@.contains_key(peer_id@) {
                self@[peer_id@].pubkey
            } else {
                None
            },
    {
        match book_find(&self.book, peer_id) {
            Some(i) => match self.book[i].pubkey() {
                Some(k) => Some(k.clone()),
                None => None,
            },
            None => None,
        }
    }

    /// Adds a peer known by identity and key, if its identity is derived from
    /// the key and the book does not know the peer yet; otherwise nothing
    /// changes.
    pub fn set_pubkey(&mut self, peer_id: &PeerId, pubkey: PublicKey)
        requires
            old(self).wf(),
        ensures
            final(self).wf(),
            final(self)@ == if peer_id@ == peer_id_of(pubkey@) && !old(self)@.contains_key(peer_id@) {
                old(self)@.insert(peer_id@, PeerInfoView { pubkey: Some(pubkey@), ..fresh_view(peer_id@) })
            } else {
                old(self)@
            },
    {
        let derived = pubkey.peer_id();
        if !peer_id.same(&derived) {
            return;
        }
        match book_find(&self.book, peer_id) {
            Some(_) => {},
            None => book_insert_new(&mut self.book, PeerInfo::with_pubkey(peer_id.clone(), pubkey)),
        }
    }

    /// How this host stands towards the peer: not connected if the book does
    /// not know the peer.
    pub fn get_connectedness(&self, peer_id: &PeerId) -> (r: Connectedness)
        requires
            self.wf(),
        ensures
            r == if self@.contains_key(peer_id@) {
                self@[peer_id@].connectedness
            } else {
                Connectedness::NotConnected
            },
    {
        match book_find(&self.book, peer_id) {
            Some(i) => self.book[i].connectedness(),
            None => Connectedness::NotConnected,
        }
    }

    /// Sets how this host stands towards a known peer; a peer the book does
    /// not know is added by identity only, not connected.
    pub fn set_connectedness(&mut self, peer_id: &PeerId, connectedness: Connectedness)
        requires
            old(self).wf(),
        ensures
            final(self).wf(),
            final(self)@ == old(self)@.insert(
                peer_id@,
                if old(self)@.contains_key(peer_id@) {
                    PeerInfoView { connectedness: connectedness, ..old(self)@[peer_id@] }
                } else {
                    fresh_view(peer_id@)
                },
            ),
    {
        match book_find(&self.book, peer_id) {
            Some(i) => book_set_connectedness(&mut self.book, i, connectedness),
            None => book_insert_new(&mut self.book, PeerInfo::new(peer_id.clone())),
        }
    }

    /// The addresses of the peer, if the book knows it.
    pub fn get_multiaddrs(&self, peer_id: &PeerId) -> (r: Option<Vec<Multiaddr>>)
        requires
            self.wf(),
        ensures
            r is Some <==> self@.contains_key(peer_id@),
            r matches Some(v) ==> addrs_distinct(v@) && addr_set(v@) == self@[peer_id@].addrs,
    {
        match book_find(&self.book, peer_id) {
            Some(i) => {
                proof { crate::peer_store::lemma_book_wf_entry(self.book@, i as int); }
                Some(self.book[i].multiaddrs())
            },
            None => None,
        }
    }

    /// Adds an address of the peer; a peer the book does not know is added
    /// with this address, not connected.
    pub fn add_multiaddr(&mut self, peer_id: &PeerId, addr: Multiaddr)
        requires
            old(self).wf(),
        ensures
            final(self).wf(),
            final(self)@ == old(self)@.insert(
                peer_id@,
                if old(self)@.contains_key(peer_id@) {
                    PeerInfoView {
                        addrs: old(self)@[peer_id@].addrs.insert(multiaddr_bytes(addr)),
                        ..old(self)@[peer_id@]
                    }
                } else {
                    PeerInfoView {
                        addrs: Set::empty().insert(multiaddr_bytes(addr)),
                        ..fresh_view(peer_id@)
                    }
                },
            ),
    {
        match book_find(&self.book, peer_id) {
            Some(i) => book_add_multiaddr(&mut self.book, i, addr),
            None => book_insert_new(&mut self.book, PeerInfo::with_addr(peer_id.clone(), addr)),
        }
    }
}

impl Default for SimplePeerStore {
    fn default() -> (r: SimplePeerStore)
        ensures
            r.wf(),
            r@ == Map::<Seq<u8>, PeerInfoView>::empty(),
    {
        SimplePeerStore::new()
    }
}

} // verus!
