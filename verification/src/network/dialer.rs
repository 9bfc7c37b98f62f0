//! The dialer's decisions: when to reuse a pooled connection, which address
//! to dial, and how the peer book and the pool change as connections are
//! made, accepted and closed.
//!
//! The dialer holds the peer book and the connection pool; the transport
//! work (dialing, accepting, closing connections) is done by its owner,
//! which hands the outcome back.
use vstd::prelude::*;

use crate::crypto::{peer_id_of, PeerId, PublicKey};
use crate::multiaddr::{multiaddr_bytes, multiaddr_clone};
use crate::network::conn_pool::{clone_of_some, NetworkConnPool};
use crate::network::Connectedness;
use crate::peer_store::{PeerInfo, PeerInfoView, PeerStore};
use parity_multiaddr::Multiaddr;

verus! {

/// Why dialing a peer failed before any transport work.
pub enum DialerError {
    /// The peer has no pooled connection and the book knows no address of it.
    NoAddress(PeerId),
}

/// Why the network refused to listen.
pub enum NetworkError {
    /// The network already listens, on this address.
    AlreadyListen(Multiaddr),
    /// The listener's driver went away without confirming its close.
    LostClosedSignal,
}

/// What dialing a peer comes to.
pub enum DialPlan<C> {
    /// The pool has a connection to the peer: a clone of it.
    Reuse(C),
    /// Dial the peer at this address.
    Dial(Multiaddr),
}

/// The book after setting the connectedness of a peer, as `PeerStore`
/// does: a peer the book does not know is added by identity only.
pub open spec fn book_with_connectedness(
    book: Map<Seq<u8>, PeerInfoView>,
    id: Seq<u8>,
    c: Connectedness,
) -> Map<Seq<u8>, PeerInfoView> {
    book.insert(
        id,
        if book.contains_key(id) {
            PeerInfoView { connectedness: c, ..book[id] }
        } else {
            crate::peer_store::fresh_view(id)
        },
    )
}

/// The pool after adding a connection, as `NetworkConnPool` does: a peer
/// that has a connection keeps it.
pub open spec fn pool_with<C>(pool: Map<Seq<u8>, C>, id: Seq<u8>, conn: C) -> Map<Seq<u8>, C> {
    if pool.contains_key(id) {
        pool
    } else {
        pool.insert(id, conn)
    }
}

/// The book after marking each of `ids`, in order, as one that can be
/// connected to again.
pub open spec fn book_released(book: Map<Seq<u8>, PeerInfoView>, ids: Seq<Seq<u8>>) -> Map<
    Seq<u8>,
    PeerInfoView,
>
    decreases ids.len(),
{
    if ids.len() == 0 {
        book
    } else {
        book_with_connectedness(
            book_released(book, ids.drop_last()),
            ids.last(),
            Connectedness::CanConnect,
        )
    }
}

/// The peer book and the connection pool of a network.
pub struct NetworkDialer<C> {
    peer_store: PeerStore,
    conn_pool: NetworkConnPool<C>,
}

impl<C: Clone> NetworkDialer<C> {
    /// The book and the pool are each well formed.
    pub closed spec fn wf(&self) -> bool {
        self.peer_store.wf() && self.conn_pool.wf()
    }

    /// The peer book.
    pub closed spec fn book(&self) -> Map<Seq<u8>, PeerInfoView> {
        self.peer_store@
    }

    /// The connection pool.
    pub closed spec fn pool(&self) -> Map<Seq<u8>, C> {
        self.conn_pool@
    }

    /// A dialer over a book and a pool.
    pub fn new(peer_store: PeerStore, conn_pool: NetworkConnPool<C>) -> (r: Self)
        requires
            peer_store.wf(),
            conn_pool.wf(),
        ensures
            r.wf(),
            r.book() == peer_store@,
            r.pool() == conn_pool@,
    {
        NetworkDialer { peer_store, conn_pool }
    }

    /// The peer book.
    pub fn peer_store(&self) -> (r: &PeerStore)
        requires
            self.wf(),
        ensures
            r.wf(),
            r@ == self.book(),
    {
        &self.peer_store
    }

    /// What dialing the peer comes to: a clone of its pooled connection if
    /// there is one; else one of the addresses the book knows for it; else
    /// `NoAddress`.
    pub fn plan_dial(&self, peer_id: &PeerId) -> (r: Result<DialPlan<C>, DialerError>)
        requires
            self.wf(),
        ensures
            self.pool().contains_key(peer_id@) ==> (r matches Ok(DialPlan::Reuse(c)) && cloned::<C>(
                self.pool()[peer_id@],
                c,
            )),
            !self.pool().contains_key(peer_id@) && self.book().contains_key(peer_id@)
                && !self.book()[peer_id@].addrs.is_empty() ==> (r matches Ok(DialPlan::Dial(a))
                && self.book()[peer_id@].addrs.contains(multiaddr_bytes(a))),
            !self.pool().contains_key(peer_id@) && !(self.book().contains_key(peer_id@)
                && !self.book()[peer_id@].addrs.is_empty()) ==> (r matches Err(
                DialerError::NoAddress(p),
            ) && p@ == peer_id@),
    {
        if let Some(conn) = self.conn_pool.conn_to_peer(peer_id) {
            return Ok(DialPlan::Reuse(conn));
        }
        if let Some(addrs) = self.peer_store.get_multiaddrs(peer_id) {
            if addrs.len() > 0 {
                let addr = multiaddr_clone(&addrs[0]);
                proof {
                    assert(crate::peer_store::addr_set(addrs@).contains(multiaddr_bytes(addrs@[0])));
                }
                return Ok(DialPlan::Dial(addr));
            }
            proof {
                assert(crate::peer_store::addr_set(addrs@) =~= Set::<Seq<u8>>::empty());
            }
        }
        Err(DialerError::NoAddress(peer_id.clone()))
    }

    /// Records an address of the peer in the book before connecting to it:
    /// the address is added to those the book knows, and a peer the book
    /// does not know is added with it, not connected.
    pub fn add_peer_addr(&mut self, peer_id: &PeerId, addr: Multiaddr)
        requires
            old(self).wf(),
        ensures
            final(self).wf(),
            final(self).pool() == old(self).pool(),
            final(self).book() == old(self).book().insert(
                peer_id@,
                if old(self).book().contains_key(peer_id@) {
                    PeerInfoView {
                        addrs: old(self).book()[peer_id@].addrs.insert(multiaddr_bytes(addr)),
                        ..old(self).book()[peer_id@]
                    }
                } else {
                    PeerInfoView {
                        addrs: Set::empty().insert(multiaddr_bytes(addr)),
                        ..crate::peer_store::fresh_view(peer_id@)
                    }
                },
            ),
    {
        self.peer_store.set_multiaddr(peer_id, addr);
    }

    /// Records a connection the transport made to the peer: the peer is
    /// connected, and the pool keeps the connection unless it has one to
    /// the peer already.
    pub fn dialed(&mut self, peer_id: &PeerId, conn: C)
        requires
            old(self).wf(),
        ensures
            final(self).wf(),
            final(self).book() == book_with_connectedness(old(self).book(), peer_id@, Connectedness::Connected),
            final(self).pool() == pool_with(old(self).pool(), peer_id@, conn),
    {
        self.peer_store.set_connectedness(peer_id, Connectedness::Connected);
        self.conn_pool.insert(peer_id.clone(), conn);
    }

    /// Records a connection a remote peer made to us, before its streams are
    /// served: a peer the book does not know is registered with its key,
    /// connected, at the remote address; a known peer is marked connected
    /// and the address added. The pool keeps the connection unless it has
    /// one to the peer already.
    pub fn accept_inbound(&mut self, peer_id: &PeerId, pubkey: PublicKey, remote: Multiaddr, conn: C)
        requires
            old(self).wf(),
        ensures
            final(self).wf(),
            !old(self).book().contains_key(peer_id@) ==> final(self).book() == (if old(self).book().contains_key(peer_id_of(pubkey@)) {
                old(self).book()
            } else {
                old(self).book().insert(
                    peer_id_of(pubkey@),
                    PeerInfoView {
                        peer_id: peer_id_of(pubkey@),
                        pubkey: Some(pubkey@),
                        connectedness: Connectedness::Connected,
                        addrs: Set::empty().insert(multiaddr_bytes(remote)),
                    },
                )
            }),
            old(self).book().contains_key(peer_id@) ==> final(self).book() == old(self).book().insert(
                peer_id@,
                PeerInfoView {
                    connectedness: Connectedness::Connected,
                    addrs: old(self).book()[peer_id@].addrs.insert(multiaddr_bytes(remote)),
                    ..old(self).book()[peer_id@]
                },
            ),
            final(self).pool() == pool_with(old(self).pool(), peer_id@, conn),
    {
        if !self.peer_store.contains(peer_id) {
            let info = PeerInfo::with_all(pubkey, Connectedness::Connected, remote);
            self.peer_store.register(info);
        } else {
            self.peer_store.set_connectedness(peer_id, Connectedness::Connected);
            self.peer_store.set_multiaddr(peer_id, remote);
        }
        self.conn_pool.insert(peer_id.clone(), conn);
    }

    /// Takes the connection to the peer out of the pool, after its streams
    /// can no longer be served; the owner closes it.
    pub fn inbound_closed(&mut self, peer_id: &PeerId) -> (r: Option<C>)
        requires
            old(self).wf(),
        ensures
            final(self).wf(),
            final(self).book() == old(self).book(),
            final(self).pool() == old(self).pool().remove(peer_id@),
            r is Some <==> old(self).pool().contains_key(peer_id@),
            r matches Some(c) ==> c == old(self).pool()[peer_id@],
    {
        self.conn_pool.take(peer_id)
    }

    /// Takes the connection to the peer out of the pool, if there is one,
    /// and marks the peer as one that can be connected to again; the owner
    /// closes the connection unless it is closed already. Nothing changes
    /// for a peer without a pooled connection.
    pub fn close_peer(&mut self, peer_id: &PeerId) -> (r: Option<C>)
        requires
            old(self).wf(),
        ensures
            final(self).wf(),
            final(self).pool() == old(self).pool().remove(peer_id@),
            r is Some <==> old(self).pool().contains_key(peer_id@),
            r matches Some(c) ==> c == old(self).pool()[peer_id@],
            final(self).book() == if old(self).pool().contains_key(peer_id@) {
                book_with_connectedness(old(self).book(), peer_id@, Connectedness::CanConnect)
            } else {
                old(self).book()
            },
    {
        let taken = self.conn_pool.take(peer_id);
        if taken.is_some() {
            self.peer_store.set_connectedness(peer_id, Connectedness::CanConnect);
        }
        taken
    }

    /// Takes every connection out of the pool, with its peer, and marks each
    /// of those peers as one that can be connected to again; the owner
    /// closes the connections.
    pub fn close(&mut self) -> (r: Vec<(PeerId, C)>)
        requires
            old(self).wf(),
        ensures
            final(self).wf(),
            final(self).pool() == Map::<Seq<u8>, C>::empty(),
            r@.len() == old(self).pool().len(),
            forall|k: int| 0 <= k < r@.len() ==> old(self).pool().contains_key((#[trigger] r@[k]).0@)
                && old(self).pool()[r@[k].0@] == r@[k].1,
            forall|id: Seq<u8>| #[trigger] old(self).pool().contains_key(id) ==> exists|k: int|
                0 <= k < r@.len() && r@[k].0@ == id,
            final(self).book() == book_released(
                old(self).book(),
                r@.map_values(|p: (PeerId, C)| p.0@),
            ),
            forall|k: int| 0 <= k < r@.len() ==> #[trigger] final(self).book().contains_key(r@[k].0@),
            forall|k: int|
                0 <= k < r@.len() && old(self).book().contains_key(#[trigger] r@[k].0@) ==> final(self).book()[r@[k].0@]
                    == (PeerInfoView { connectedness: Connectedness::CanConnect, ..old(self).book()[r@[k].0@] }),
            forall|id: Seq<u8>|
                #[trigger] old(self).book().contains_key(id) && !old(self).pool().contains_key(id) ==> final(self).book().contains_key(id)
                    && final(self).book()[id] == old(self).book()[id],
            forall|k: int|
                0 <= k < r@.len() && !old(self).book().contains_key(#[trigger] r@[k].0@) ==> final(self).book()[r@[k].0@]
                    == (PeerInfoView {
                    peer_id: r@[k].0@,
                    pubkey: None,
                    connectedness: Connectedness::NotConnected,
                    addrs: Set::empty(),
                }),
    {
        let drained = self.conn_pool.drain();
        let ghost ids = drained@.map_values(|p: (PeerId, C)| p.0@);
        let ghost start = self.peer_store@;
        let mut i: usize = 0;
        while i < drained.len()
            invariant
                self.peer_store.wf(),
                self.conn_pool.wf(),
                self.conn_pool@ == Map::<Seq<u8>, C>::empty(),
                i <= drained@.len(),
                ids == drained@.map_values(|p: (PeerId, C)| p.0@),
                self.peer_store@ == book_released(start, ids.take(i as int)),
            decreases drained@.len() - i,
        {
            self.peer_store.set_connectedness(&drained[i].0, Connectedness::CanConnect);
            proof {
                assert(ids.take(i + 1).drop_last() =~= ids.take(i as int));
                assert(ids.take(i + 1).last() == drained@[i as int].0@);
            }
            i = i + 1;
        }
        assert(ids.take(drained@.len() as int) =~= ids);
        proof {
            lemma_released_peers_can_connect(start, ids);
            assert forall|k: int| 0 <= k < drained@.len() implies #[trigger] self.peer_store@.contains_key(drained@[k].0@) by {
                assert(ids[k] == drained@[k].0@);
            }
            assert forall|k: int|
                0 <= k < drained@.len() && start.contains_key(#[trigger] drained@[k].0@) implies self.peer_store@[drained@[k].0@]
                    == (PeerInfoView { connectedness: Connectedness::CanConnect, ..start[drained@[k].0@] }) by {
                assert(ids[k] == drained@[k].0@);
            }
            assert forall|k: int|
                0 <= k < drained@.len() && !start.contains_key(#[trigger] drained@[k].0@) implies self.peer_store@[drained@[k].0@]
                    == (PeerInfoView {
                    peer_id: drained@[k].0@,
                    pubkey: None,
                    connectedness: Connectedness::NotConnected,
                    addrs: Set::empty(),
                }) by {
                assert(ids[k] == drained@[k].0@);
                assert forall|j: int| 0 <= j < ids.len() && j != k implies ids[j] != ids[k] by {
                    assert(ids[j] == drained@[j].0@);
                }
            }
            assert forall|id: Seq<u8>|
                #[trigger] start.contains_key(id) && !old(self).pool().contains_key(id) implies self.peer_store@.contains_key(id)
                    && self.peer_store@[id] == start[id] by {
                if ids.contains(id) {
                    let k = choose|k: int| 0 <= k < ids.len() && ids[k] == id;
                    assert(drained@[k].0@ == id);
                }
            }
        }
        drained
    }

    /// How this host stands towards the peer.
    pub fn connectedness(&self, peer_id: &PeerId) -> (r: Connectedness)
        requires
            self.wf(),
        ensures
            r == if self.book().contains_key(peer_id@) {
                self.book()[peer_id@].connectedness
            } else {
                Connectedness::NotConnected
            },
    {
        self.peer_store.get_connectedness(peer_id)
    }

    /// The peers that have a pooled connection, each once.
    pub fn peers(&self) -> (r: Vec<PeerId>)
        requires
            self.wf(),
        ensures
            r@.len() == self.pool().len(),
            forall|k: int| 0 <= k < r@.len() ==> self.pool().contains_key((#[trigger] r@[k])@),
            forall|id: Seq<u8>| #[trigger] self.pool().contains_key(id) ==> exists|k: int|
                0 <= k < r@.len() && r@[k]@ == id,
    {
        self.conn_pool.peers()
    }

    /// Clones of the pooled connections, one per peer.
    pub fn conns(&self) -> (r: Vec<C>)
        requires
            self.wf(),
        ensures
            r@.len() == self.pool().len(),
            forall|k: int| 0 <= k < r@.len() ==> clone_of_some(self.pool(), #[trigger] r@[k]),
    {
        self.conn_pool.conns()
    }

    /// A clone of the pooled connection to the peer, if there is one.
    pub fn conn_to_peer(&self, peer_id: &PeerId) -> (r: Option<C>)
        requires
            self.wf(),
        ensures
            r is Some <==> self.pool().contains_key(peer_id@),
            r matches Some(c) ==> cloned::<C>(self.pool()[peer_id@], c),
    {
        self.conn_pool.conn_to_peer(peer_id)
    }
}

/// Once a connection to a peer is recorded, dialing the peer reuses the
/// pooled connection, and the peer stands connected.
pub proof fn lemma_dialed_peer_is_reused<C>(
    book: Map<Seq<u8>, PeerInfoView>,
    pool: Map<Seq<u8>, C>,
    id: Seq<u8>,
    conn: C,
)
    ensures
        pool_with(pool, id, conn).contains_key(id),
        !pool.contains_key(id) ==> pool_with(pool, id, conn)[id] == conn,
        book_with_connectedness(book, id, Connectedness::Connected).contains_key(id),
        book.contains_key(id) ==> book_with_connectedness(book, id, Connectedness::Connected)[id].connectedness
            == Connectedness::Connected,
{
}

/// Once a peer's connection is closed, dialing the peer no longer reuses a
/// connection, and a peer the book knew stands as one that can be connected
/// to again.
pub proof fn lemma_closed_peer_is_released(
    book: Map<Seq<u8>, PeerInfoView>,
    id: Seq<u8>,
)
    ensures
        book.contains_key(id) ==> book_with_connectedness(book, id, Connectedness::CanConnect)[id].connectedness
            == Connectedness::CanConnect,
        book_with_connectedness(book, id, Connectedness::CanConnect).contains_key(id),
{
}

/// Releasing peers marks every one of them the book knew as one that can be
/// connected to again, keeping the rest of its record; a released peer the
/// book did not know is added by identity only; every other peer's record
/// is left as it was.
pub proof fn lemma_released_peers_can_connect(book: Map<Seq<u8>, PeerInfoView>, ids: Seq<Seq<u8>>)
    ensures
        forall|i: int| 0 <= i < ids.len() ==> #[trigger] book_released(book, ids).contains_key(ids[i]),
        forall|i: int|
            0 <= i < ids.len() && book.contains_key(#[trigger] ids[i]) ==> book_released(book, ids)[ids[i]]
                == (PeerInfoView { connectedness: Connectedness::CanConnect, ..book[ids[i]] }),
        forall|id: Seq<u8>|
            #[trigger] book.contains_key(id) && !ids.contains(id) ==> book_released(book, ids).contains_key(id)
                && book_released(book, ids)[id] == book[id],
        forall|id: Seq<u8>| #[trigger] book_released(book, ids).contains_key(id) ==> book.contains_key(id) || ids.contains(id),
        forall|i: int|
            0 <= i < ids.len() && !book.contains_key(#[trigger] ids[i]) && (forall|j: int|
                0 <= j < ids.len() && j != i ==> ids[j] != ids[i]) ==> book_released(book, ids)[ids[i]] == (PeerInfoView {
                peer_id: ids[i],
                pubkey: None,
                connectedness: Connectedness::NotConnected,
                addrs: Set::empty(),
            }),
    decreases ids.len(),
{
    if ids.len() > 0 {
        let init = ids.drop_last();
        lemma_released_peers_can_connect(book, init);
        let before = book_released(book, init);
        let last = ids.last();
        assert forall|i: int| 0 <= i < ids.len() implies #[trigger] book_released(book, ids).contains_key(ids[i]) by {
            if i < ids.len() - 1 {
                assert(init[i] == ids[i]);
            }
        }
        assert forall|i: int|
            0 <= i < ids.len() && book.contains_key(#[trigger] ids[i]) implies book_released(book, ids)[ids[i]]
                == (PeerInfoView { connectedness: Connectedness::CanConnect, ..book[ids[i]] }) by {
            if i < ids.len() - 1 {
                assert(init[i] == ids[i]);
            }
            if ids[i] != last {
                assert(init[i] == ids[i]);
            } else {
                if init.contains(last) {
                    let j = choose|j: int| 0 <= j < init.len() && init[j] == last;
                    assert(before[init[j]] == (PeerInfoView { connectedness: Connectedness::CanConnect, ..book[init[j]] }));
                }
            }
        }
        assert forall|id: Seq<u8>| #[trigger] book.contains_key(id) && !ids.contains(id) implies book_released(book, ids).contains_key(id)
            && book_released(book, ids)[id] == book[id] by {
            assert(id != last);
            if init.contains(id) {
                let j = choose|j: int| 0 <= j < init.len() && init[j] == id;
                assert(ids[j] == id);
            }
        }
        assert forall|i: int|
            0 <= i < ids.len() && !book.contains_key(#[trigger] ids[i]) && (forall|j: int|
                0 <= j < ids.len() && j != i ==> ids[j] != ids[i]) implies book_released(book, ids)[ids[i]] == (PeerInfoView {
                peer_id: ids[i],
                pubkey: None,
                connectedness: Connectedness::NotConnected,
                addrs: Set::empty(),
            }) by {
            if i < ids.len() - 1 {
                assert(init[i] == ids[i]);
                assert forall|j: int| 0 <= j < init.len() && j != i implies init[j] != init[i] by {
                    assert(init[j] == ids[j]);
                }
                assert(ids[ids.len() - 1] != ids[i]);
            } else {
                if init.contains(last) {
                    let j = choose|j: int| 0 <= j < init.len() && init[j] == last;
                    assert(ids[j] == last);
                }
                assert(!before.contains_key(last));
                assert(crate::peer_store::fresh_view(last) == (PeerInfoView {
                    peer_id: last,
                    pubkey: None,
                    connectedness: Connectedness::NotConnected,
                    addrs: Set::empty(),
                }));
            }
        }
        assert forall|id: Seq<u8>| #[trigger] book_released(book, ids).contains_key(id) implies book.contains_key(id) || ids.contains(id) by {
            if id == last {
                assert(ids[ids.len() - 1] == id);
            } else if init.contains(id) {
                let j = choose|j: int| 0 <= j < init.len() && init[j] == id;
                assert(ids[j] == id);
            }
        }
    }
}

/// The network listens at most once: a second listen is refused with the
/// address it already listens on.
pub fn check_listen(listening_on: Option<&Multiaddr>) -> (r: Result<(), NetworkError>)
    ensures
        listening_on is None <==> r is Ok,
        listening_on matches Some(a) ==> r matches Err(NetworkError::AlreadyListen(b)) && multiaddr_bytes(b)
            == multiaddr_bytes(*a),
{
    match listening_on {
        Some(a) => Err(NetworkError::AlreadyListen(multiaddr_clone(a))),
        None => Ok(()),
    }
}

} // verus!
