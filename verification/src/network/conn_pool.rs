//! The connection pool: at most one connection per peer.
//!
//! Adding a connection to a peer that already has one keeps the existing
//! connection.
use vstd::prelude::*;

use crate::crypto::PeerId;

verus! {

/// A peer and its connection.
pub struct PeerConn<C> {
    pub peer_id: PeerId,
    pub conn: C,
}

/// No two connections to one peer.
pub open spec fn peers_distinct<C>(s: Seq<PeerConn<C>>) -> bool {
    forall|i: int, j: int|
        0 <= i < s.len() && 0 <= j < s.len() && i != j ==> (#[trigger] s[i]).peer_id@ != (
        #[trigger] s[j]).peer_id@
}

/// The connections as a map from peer identity.
pub open spec fn pool_view<C>(s: Seq<PeerConn<C>>) -> Map<Seq<u8>, C> {
    Map::new(
        |k: Seq<u8>| exists|i: int| 0 <= i < s.len() && (#[trigger] s[i]).peer_id@ == k,
        |k: Seq<u8>| s[choose|i: int| 0 <= i < s.len() && (#[trigger] s[i]).peer_id@ == k].conn,
    )
}

proof fn lemma_pool_entry<C>(s: Seq<PeerConn<C>>, i: int)
    requires
        peers_distinct(s),
        0 <= i < s.len(),
    ensures
        pool_view(s).contains_key(s[i].peer_id@),
        pool_view(s)[s[i].peer_id@] == s[i].conn,
{
    let k = s[i].peer_id@;
    assert(exists|j: int| 0 <= j < s.len() && (#[trigger] s[j]).peer_id@ == k);
    let j = choose|j: int| 0 <= j < s.len() && (#[trigger] s[j]).peer_id@ == k;
    assert(j == i);
}

proof fn lemma_pool_push<C>(s: Seq<PeerConn<C>>, x: PeerConn<C>)
    requires
        peers_distinct(s),
        !pool_view(s).contains_key(x.peer_id@),
    ensures
        peers_distinct(s.push(x)),
        pool_view(s.push(x)) == pool_view(s).insert(x.peer_id@, x.conn),
{
    let t = s.push(x);
    assert forall|i: int| 0 <= i < s.len() implies (#[trigger] s[i]).peer_id@ != x.peer_id@ by {
        if s[i].peer_id@ == x.peer_id@ {
            assert(pool_view(s).contains_key(x.peer_id@));
        }
    }
    assert(peers_distinct(t)) by {
        assert forall|i: int, j: int|
            0 <= i < t.len() && 0 <= j < t.len() && i != j implies (#[trigger] t[i]).peer_id@ != (
            #[trigger] t[j]).peer_id@ by {
            if i < s.len() { assert(t[i] == s[i]); }
            if j < s.len() { assert(t[j] == s[j]); }
        }
    }
    assert(pool_view(t) =~= pool_view(s).insert(x.peer_id@, x.conn)) by {
        assert forall|k: Seq<u8>| pool_view(t).contains_key(k) <==> pool_view(s).insert(x.peer_id@, x.conn).contains_key(k) by {
            if pool_view(t).contains_key(k) {
                let i = choose|i: int| 0 <= i < t.len() && (#[trigger] t[i]).peer_id@ == k;
                if i < s.len() { assert(s[i] == t[i]); }
            }
            if pool_view(s).contains_key(k) {
                let i = choose|i: int| 0 <= i < s.len() && (#[trigger] s[i]).peer_id@ == k;
                assert(t[i] == s[i]);
            }
            if k == x.peer_id@ {
                assert(t[s.len() as int] == x);
            }
        }
        assert forall|k: Seq<u8>| pool_view(t).contains_key(k) implies pool_view(t)[k] == pool_view(s).insert(x.peer_id@, x.conn)[k] by {
            let i = choose|i: int| 0 <= i < t.len() && (#[trigger] t[i]).peer_id@ == k;
            lemma_pool_entry(t, i);
            if i < s.len() {
                assert(t[i] == s[i]);
                lemma_pool_entry(s, i);
            } else {
                assert(t[i] == x);
            }
        }
    }
}

proof fn lemma_pool_remove<C>(s: Seq<PeerConn<C>>, i: int)
    requires
        peers_distinct(s),
        0 <= i < s.len(),
    ensures
        peers_distinct(s.remove(i)),
        pool_view(s.remove(i)) == pool_view(s).remove(s[i].peer_id@),
{
    let t = s.remove(i);
    let id = s[i].peer_id@;
    assert forall|a: int| 0 <= a < t.len() implies #[trigger] t[a] == (if a < i { s[a] } else { s[a + 1] }) by {}
    assert(peers_distinct(t)) by {
        assert forall|a: int, b: int|
            0 <= a < t.len() && 0 <= b < t.len() && a != b implies (#[trigger] t[a]).peer_id@ != (
            #[trigger] t[b]).peer_id@ by {
            let sa = if a < i { a } else { a + 1 };
            let sb = if b < i { b } else { b + 1 };
            assert(t[a] == s[sa] && t[b] == s[sb]);
        }
    }
    assert(pool_view(t) =~= pool_view(s).remove(id)) by {
        assert forall|k: Seq<u8>| pool_view(t).contains_key(k) <==> pool_view(s).remove(id).contains_key(k) by {
            if pool_view(t).contains_key(k) {
                let a = choose|a: int| 0 <= a < t.len() && (#[trigger] t[a]).peer_id@ == k;
                let sa = if a < i { a } else { a + 1 };
                assert(t[a] == s[sa]);
                assert(s[sa].peer_id@ != id);
            }
            if pool_view(s).remove(id).contains_key(k) {
                let a = choose|a: int| 0 <= a < s.len() && (#[trigger] s[a]).peer_id@ == k;
                assert(a != i);
                let ta = if a < i { a } else { a - 1 };
                assert(t[ta] == s[a]);
            }
        }
        assert forall|k: Seq<u8>| pool_view(t).contains_key(k) implies pool_view(t)[k] == pool_view(s).remove(id)[k] by {
            let a = choose|a: int| 0 <= a < t.len() && (#[trigger] t[a]).peer_id@ == k;
            lemma_pool_entry(t, a);
            let sa = if a < i { a } else { a + 1 };
            assert(t[a] == s[sa]);
            lemma_pool_entry(s, sa);
        }
    }
}

/// Whether `c` is a clone of some connection of the pool.
pub open spec fn clone_of_some<C: Clone>(pool: Map<Seq<u8>, C>, c: C) -> bool {
    exists|id: Seq<u8>| #[trigger] pool.contains_key(id) && cloned::<C>(pool[id], c)
}

/// The connection pool.
pub struct NetworkConnPool<C> {
    pool: Vec<PeerConn<C>>,
}

impl<C> View for NetworkConnPool<C> {
    type V = Map<Seq<u8>, C>;

    closed spec fn view(&self) -> Map<Seq<u8>, C> {
        pool_view(self.pool@)
    }
}

impl<C: Clone> NetworkConnPool<C> {
    /// At most one connection per peer.
    pub closed spec fn wf(&self) -> bool {
        peers_distinct(self.pool@)
    }

    /// An empty pool.
    pub fn new() -> (r: Self)
        ensures
            r.wf(),
            r@ == Map::<Seq<u8>, C>::empty(),
    {
        let r = NetworkConnPool { pool: Vec::new() };
        assert(r@ =~= Map::<Seq<u8>, C>::empty());
        r
    }

    fn find(&self, peer_id: &PeerId) -> (r: Option<usize>)
        requires
            self.wf(),
        ensures
            r is Some <==> self@.contains_key(peer_id@),
            r matches Some(i) ==> i < self.pool@.len() && self.pool@[i as int].peer_id@ == peer_id@
                && self@[peer_id@] == self.pool@[i as int].conn,
    {
        let mut i: usize = 0;
        while i < self.pool.len()
            invariant
                i <= self.pool@.len(),
                self.wf(),
                forall|k: int| 0 <= k < i ==> (#[trigger] self.pool@[k]).peer_id@ != peer_id@,
            decreases self.pool@.len() - i,
        {
            if self.pool[i].peer_id.same(peer_id) {
                proof { lemma_pool_entry(self.pool@, i as int); }
                return Some(i);
            }
            i = i + 1;
        }
        None
    }

    /// The peers that have a connection, each once.
    pub fn peers(&self) -> (r: Vec<PeerId>)
        requires
            self.wf(),
        ensures
            r@.len() == self@.len(),
            forall|k: int| 0 <= k < r@.len() ==> self@.contains_key((#[trigger] r@[k])@),
            forall|id: Seq<u8>| #[trigger] self@.contains_key(id) ==> exists|k: int| 0 <= k < r@.len() && r@[k]@ == id,
            forall|a: int, b: int| 0 <= a < r@.len() && 0 <= b < r@.len() && a != b ==> (#[trigger] r@[a])@ != (#[trigger] r@[b])@,
    {
        let mut out: Vec<PeerId> = Vec::new();
        let mut i: usize = 0;
        while i < self.pool.len()
            invariant
                self.wf(),
                i <= self.pool@.len(),
                out@.len() == i,
                forall|k: int| 0 <= k < i ==> (#[trigger] out@[k])@ == self.pool@[k].peer_id@,
            decreases self.pool@.len() - i,
        {
            out.push(self.pool[i].peer_id.clone());
            i = i + 1;
        }
        proof {
            self.lemma_len();
            assert forall|k: int| 0 <= k < out@.len() implies self@.contains_key((#[trigger] out@[k])@) by {
                lemma_pool_entry(self.pool@, k);
            }
            assert forall|id: Seq<u8>| #[trigger] self@.contains_key(id) implies exists|k: int| 0 <= k < out@.len() && out@[k]@ == id by {
                let k = choose|k: int| 0 <= k < self.pool@.len() && (#[trigger] self.pool@[k]).peer_id@ == id;
                assert(out@[k]@ == id);
            }
        }
        out
    }

    proof fn lemma_len(&self)
        requires
            self.wf(),
        ensures
            self@.dom().finite(),
            self@.len() == self.pool@.len(),
    {
        let s = self.pool@;
        let ids = s.map_values(|r: PeerConn<C>| r.peer_id@);
        assert(ids.no_duplicates()) by {
            assert forall|i: int, j: int| 0 <= i < ids.len() && 0 <= j < ids.len() && i != j implies ids[i] != ids[j] by {
                assert(ids[i] == s[i].peer_id@ && ids[j] == s[j].peer_id@);
            }
        }
        assert(self@.dom() =~= ids.to_set()) by {
            assert forall|k: Seq<u8>| self@.dom().contains(k) <==> ids.to_set().contains(k) by {
                if self@.dom().contains(k) {
                    let i = choose|i: int| 0 <= i < s.len() && (#[trigger] s[i]).peer_id@ == k;
                    assert(ids[i] == k);
                }
                if ids.to_set().contains(k) {
                    let i = choose|i: int| 0 <= i < ids.len() && ids[i] == k;
                    assert(s[i].peer_id@ == k);
                }
            }
        }
        ids.unique_seq_to_set();
    }

    /// Clones of all connections, one per peer.
    pub fn conns(&self) -> (r: Vec<C>)
        requires
            self.wf(),
        ensures
            r@.len() == self@.len(),
            forall|k: int| 0 <= k < r@.len() ==> clone_of_some(self@, #[trigger] r@[k]),
    {
        let mut out: Vec<C> = Vec::new();
        let mut i: usize = 0;
        while i < self.pool.len()
            invariant
                self.wf(),
                i <= self.pool@.len(),
                out@.len() == i,
                forall|k: int| 0 <= k < i ==> cloned::<C>(self.pool@[k].conn, #[trigger] out@[k]),
            decreases self.pool@.len() - i,
        {
            let c = self.pool[i].conn.clone();
            out.push(c);
            i = i + 1;
        }
        proof {
            self.lemma_len();
            assert forall|k: int| 0 <= k < out@.len() implies clone_of_some(self@, #[trigger] out@[k]) by {
                lemma_pool_entry(self.pool@, k);
                assert(self@.contains_key(self.pool@[k].peer_id@));
            }
        }
        out
    }

    /// A clone of the connection to the peer, if there is one.
    pub fn conn_to_peer(&self, peer_id: &PeerId) -> (r: Option<C>)
        requires
            self.wf(),
        ensures
            r is Some <==> self@.contains_key(peer_id@),
            r matches Some(c) ==> cloned::<C>(self@[peer_id@], c),
    {
        match self.find(peer_id) {
            Some(i) => Some(self.pool[i].conn.clone()),
            None => None,
        }
    }

    /// Adds a connection to a peer that has none; a peer that has one keeps it.
    pub fn insert(&mut self, peer_id: PeerId, conn: C)
        requires
            old(self).wf(),
        ensures
            final(self).wf(),
            final(self)@ == if old(self)@.contains_key(peer_id@) {
                old(self)@
            } else {
                old(self)@.insert(peer_id@, conn)
            },
    {
        match self.find(&peer_id) {
            Some(_) => {},
            None => {
                let entry = PeerConn { peer_id, conn };
                proof { lemma_pool_push(self.pool@, entry); }
                self.pool.push(entry);
            },
        }
    }

    /// Takes the connection to the peer out of the pool, if there is one.
    pub fn take(&mut self, peer_id: &PeerId) -> (r: Option<C>)
        requires
            old(self).wf(),
        ensures
            final(self).wf(),
            final(self)@ == old(self)@.remove(peer_id@),
            r is Some <==> old(self)@.contains_key(peer_id@),
            r matches Some(c) ==> c == old(self)@[peer_id@],
    {
        match self.find(peer_id) {
            Some(i) => {
                proof { lemma_pool_remove(self.pool@, i as int); }
                let pc = self.pool.remove(i);
                Some(pc.conn)
            },
            None => {
                assert(self@ =~= self@.remove(peer_id@));
                None
            },
        }
    }

    /// Takes every connection out of the pool, with its peer.
    pub fn drain(&mut self) -> (r: Vec<(PeerId, C)>)
        requires
            old(self).wf(),
        ensures
            final(self).wf(),
            final(self)@ == Map::<Seq<u8>, C>::empty(),
            r@.len() == old(self)@.len(),
            forall|k: int| 0 <= k < r@.len() ==> old(self)@.contains_key((#[trigger] r@[k]).0@)
                && old(self)@[r@[k].0@] == r@[k].1,
            forall|id: Seq<u8>| #[trigger] old(self)@.contains_key(id) ==> exists|k: int| 0 <= k < r@.len() && r@[k].0@ == id,
            forall|i: int, j: int|
                0 <= i < r@.len() && 0 <= j < r@.len() && i != j ==> (#[trigger] r@[i]).0@ != (#[trigger] r@[j]).0@,
    {
        proof { self.lemma_len(); }
        let ghost s = self.pool@;
        let mut pool: Vec<PeerConn<C>> = Vec::new();
        std::mem::swap(&mut pool, &mut self.pool);
        assert(self@ =~= Map::<Seq<u8>, C>::empty());
        let mut out: Vec<(PeerId, C)> = Vec::new();
        while pool.len() > 0
            invariant
                pool@.len() + out@.len() == s.len(),
                pool@ == s.take(pool@.len() as int),
                forall|k: int| 0 <= k < out@.len() ==> (#[trigger] out@[k]).0@ == s[s.len() - 1 - k].peer_id@
                    && out@[k].1 == s[s.len() - 1 - k].conn,
            decreases pool@.len(),
        {
            let ghost before = pool@;
            let pc = pool.pop().unwrap();
            proof {
                assert(pool@ =~= s.take(pool@.len() as int));
            }
            out.push((pc.peer_id, pc.conn));
        }
        proof {
            assert forall|k: int| 0 <= k < out@.len() implies old(self)@.contains_key((#[trigger] out@[k]).0@)
                && old(self)@[out@[k].0@] == out@[k].1 by {
                lemma_pool_entry(s, s.len() - 1 - k);
            }
            assert forall|id: Seq<u8>| #[trigger] old(self)@.contains_key(id) implies exists|k: int| 0 <= k < out@.len() && out@[k].0@ == id by {
                let j = choose|j: int| 0 <= j < s.len() && (#[trigger] s[j]).peer_id@ == id;
                let k = s.len() - 1 - j;
                assert(out@[k].0@ == id);
            }
            assert forall|i: int, j: int|
                0 <= i < out@.len() && 0 <= j < out@.len() && i != j implies (#[trigger] out@[i]).0@ != (#[trigger] out@[j]).0@ by {
                assert(s[s.len() - 1 - i].peer_id@ != s[s.len() - 1 - j].peer_id@);
            }
        }
        out
    }
}

} // verus!
