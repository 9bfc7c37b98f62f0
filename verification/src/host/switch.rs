//! The protocol switch: registered protocol handlers and offer matching.
//!
//! Each protocol identity is registered at most once; a new registration
//! of an identity replaces the old one. An incoming offer lists protocols by
//! identity or by name, and is answered with a registration that accepts
//! the first offered protocol that any registration accepts.
use vstd::prelude::*;
use vstd::string::StrSliceExecFns;

use crate::network::{Protocol, ProtocolId};

verus! {

/// Why the negotiation of an incoming stream failed.
#[derive(Debug, PartialEq, Eq, Clone, Copy, Structural)]
pub enum SwitchError {
    NoProtocolOffer,
    NoProtocolName,
    EmptyOffer,
    NoProtocolMatch,
}

/// A protocol name predicate that a handler may register besides its own
/// name. Implementors answer as a function of the matcher and the name.
pub trait MatchProtocol {
    /// Whether this matcher accepts the name.
    spec fn spec_match_name(&self, name: Seq<char>) -> bool;

    /// Whether this matcher accepts the name.
    fn match_name(&self, name: &str) -> (r: bool)
        ensures
            r == self.spec_match_name(name@);
}

/// A name matcher that accepts the names that begin with a prefix.
pub struct PrefixMatch {
    pub prefix: String,
}

impl MatchProtocol for PrefixMatch {
    open spec fn spec_match_name(&self, name: Seq<char>) -> bool {
        self.prefix@.len() <= name.len() && name.subrange(0, self.prefix@.len() as int) == self.prefix@
    }

    fn match_name(&self, name: &str) -> (r: bool) {
        let p = self.prefix.as_str();
        let plen = p.unicode_len();
        let nlen = name.unicode_len();
        if plen > nlen {
            return false;
        }
        let mut i: usize = 0;
        while i < plen
            invariant
                p@ == self.prefix@,
                plen == p@.len(),
                nlen == name@.len(),
                plen <= nlen,
                i <= plen,
                forall|j: int| 0 <= j < i ==> p@[j] == name@[j],
            decreases plen - i,
        {
            if p.get_char(i) != name.get_char(i) {
                assert(name@.subrange(0, plen as int)[i as int] != p@[i as int]);
                return false;
            }
            i = i + 1;
        }
        assert(name@.subrange(0, plen as int) =~= p@);
        true
    }
}

/// One protocol of an offer: by identity or by name.
pub enum OfferProtocol {
    Id(u64),
    Name(String),
}

/// One protocol of an offer, as the logic reads it.
pub enum OfferView {
    Id(u64),
    Name(Seq<char>),
}

impl View for OfferProtocol {
    type V = OfferView;

    open spec fn view(&self) -> OfferView {
        match self {
            OfferProtocol::Id(id) => OfferView::Id(*id),
            OfferProtocol::Name(n) => OfferView::Name(n@),
        }
    }
}

/// A registered protocol: the protocol, possibly a name matcher, and the
/// handler of its streams.
pub struct Registered<H, M> {
    pub proto: Protocol,
    pub matcher: Option<M>,
    pub handler: H,
}

/// What the switch knows of a registered protocol identity.
pub struct RegisteredView<H, M> {
    pub name: Seq<char>,
    pub matcher: Option<M>,
    pub handler: H,
}

impl<H, M> Registered<H, M> {
    /// The view of a registration.
    pub open spec fn entry(&self) -> RegisteredView<H, M> {
        RegisteredView { name: self.proto.name@, matcher: self.matcher, handler: self.handler }
    }
}

/// Whether the registration of identity `id` accepts an offered protocol.
pub open spec fn accepts<H, M: MatchProtocol>(id: u64, e: RegisteredView<H, M>, offer: OfferView) -> bool {
    match offer {
        OfferView::Id(x) => id == x,
        OfferView::Name(n) => e.name == n || (e.matcher matches Some(m) && m.spec_match_name(n)),
    }
}

/// Whether some registration accepts an offered protocol.
pub open spec fn some_accepts<H, M: MatchProtocol>(
    reg: Map<u64, RegisteredView<H, M>>,
    offer: OfferView,
) -> bool {
    exists|id: u64| #[trigger] reg.contains_key(id) && accepts(id, reg[id], offer)
}

/// Whether registration `id` answers the offer: it accepts the first offered
/// protocol that any registration accepts.
pub open spec fn answers<H, M: MatchProtocol>(
    reg: Map<u64, RegisteredView<H, M>>,
    offers: Seq<OfferView>,
    id: u64,
) -> bool {
    reg.contains_key(id) && exists|k: int|
        0 <= k < offers.len() && accepts(id, reg[id], #[trigger] offers[k]) && forall|j: int|
            0 <= j < k ==> !some_accepts(reg, #[trigger] offers[j])
}

/// The first identity, in `order`, of a registration that accepts an offered
/// protocol.
pub open spec fn first_accepting<H, M: MatchProtocol>(
    reg: Map<u64, RegisteredView<H, M>>,
    order: Seq<u64>,
    offer: OfferView,
) -> Option<u64>
    decreases order.len(),
{
    if order.len() == 0 {
        None
    } else if reg.contains_key(order[0]) && accepts(order[0], reg[order[0]], offer) {
        Some(order[0])
    } else {
        first_accepting(reg, order.drop_first(), offer)
    }
}

/// The registration chosen for a list of offers: for the first offered
/// protocol that some registration accepts, the first such registration in
/// `order`.
pub open spec fn chosen<H, M: MatchProtocol>(
    reg: Map<u64, RegisteredView<H, M>>,
    order: Seq<u64>,
    offers: Seq<OfferView>,
) -> Option<u64>
    decreases offers.len(),
{
    if offers.len() == 0 {
        None
    } else {
        match first_accepting(reg, order, offers[0]) {
            Some(id) => Some(id),
            None => chosen(reg, order, offers.drop_first()),
        }
    }
}

/// No two registrations of one identity.
pub open spec fn ids_distinct<H, M>(s: Seq<Registered<H, M>>) -> bool {
    forall|i: int, j: int|
        0 <= i < s.len() && 0 <= j < s.len() && i != j ==> (#[trigger] s[i]).proto.id.0 != (
        #[trigger] s[j]).proto.id.0
}

/// The registrations as a map from protocol identity.
pub open spec fn reg_view<H, M>(s: Seq<Registered<H, M>>) -> Map<u64, RegisteredView<H, M>> {
    Map::new(
        |id: u64| exists|i: int| 0 <= i < s.len() && (#[trigger] s[i]).proto.id.0 == id,
        |id: u64| s[choose|i: int| 0 <= i < s.len() && (#[trigger] s[i]).proto.id.0 == id].entry(),
    )
}

proof fn lemma_reg_entry<H, M>(s: Seq<Registered<H, M>>, i: int)
    requires
        ids_distinct(s),
        0 <= i < s.len(),
    ensures
        reg_view(s).contains_key(s[i].proto.id.0),
        reg_view(s)[s[i].proto.id.0] == s[i].entry(),
{
    let id = s[i].proto.id.0;
    assert(exists|j: int| 0 <= j < s.len() && (#[trigger] s[j]).proto.id.0 == id);
    let j = choose|j: int| 0 <= j < s.len() && (#[trigger] s[j]).proto.id.0 == id;
    assert(j == i);
}

proof fn lemma_reg_push<H, M>(s: Seq<Registered<H, M>>, x: Registered<H, M>)
    requires
        ids_distinct(s),
        !reg_view(s).contains_key(x.proto.id.0),
    ensures
        ids_distinct(s.push(x)),
        reg_view(s.push(x)) == reg_view(s).insert(x.proto.id.0, x.entry()),
{
    let t = s.push(x);
    assert forall|i: int| 0 <= i < s.len() implies (#[trigger] s[i]).proto.id.0 != x.proto.id.0 by {
        if s[i].proto.id.0 == x.proto.id.0 {
            assert(reg_view(s).contains_key(x.proto.id.0));
        }
    }
    assert(ids_distinct(t)) by {
        assert forall|i: int, j: int|
            0 <= i < t.len() && 0 <= j < t.len() && i != j implies (#[trigger] t[i]).proto.id.0 != (
            #[trigger] t[j]).proto.id.0 by {
            if i < s.len() { assert(t[i] == s[i]); }
            if j < s.len() { assert(t[j] == s[j]); }
        }
    }
    assert(reg_view(t) =~= reg_view(s).insert(x.proto.id.0, x.entry())) by {
        assert forall|k: u64| reg_view(t).contains_key(k) <==> reg_view(s).insert(x.proto.id.0, x.entry()).contains_key(k) by {
            if reg_view(t).contains_key(k) {
                let i = choose|i: int| 0 <= i < t.len() && (#[trigger] t[i]).proto.id.0 == k;
                if i < s.len() { assert(s[i] == t[i]); }
            }
            if reg_view(s).contains_key(k) {
                let i = choose|i: int| 0 <= i < s.len() && (#[trigger] s[i]).proto.id.0 == k;
                assert(t[i] == s[i]);
            }
            if k == x.proto.id.0 {
                assert(t[s.len() as int] == x);
            }
        }
        assert forall|k: u64| reg_view(t).contains_key(k) implies reg_view(t)[k] == reg_view(s).insert(x.proto.id.0, x.entry())[k] by {
            let i = choose|i: int| 0 <= i < t.len() && (#[trigger] t[i]).proto.id.0 == k;
            lemma_reg_entry(t, i);
            if i < s.len() {
                assert(t[i] == s[i]);
                lemma_reg_entry(s, i);
            } else {
                assert(t[i] == x);
            }
        }
    }
}

proof fn lemma_reg_update<H, M>(s: Seq<Registered<H, M>>, i: int, x: Registered<H, M>)
    requires
        ids_distinct(s),
        0 <= i < s.len(),
        x.proto.id.0 == s[i].proto.id.0,
    ensures
        ids_distinct(s.update(i, x)),
        reg_view(s.update(i, x)) == reg_view(s).insert(x.proto.id.0, x.entry()),
{
    let t = s.update(i, x);
    assert(ids_distinct(t)) by {
        assert forall|a: int, b: int|
            0 <= a < t.len() && 0 <= b < t.len() && a != b implies (#[trigger] t[a]).proto.id.0 != (
            #[trigger] t[b]).proto.id.0 by {
            assert(t[a].proto.id.0 == s[a].proto.id.0);
            assert(t[b].proto.id.0 == s[b].proto.id.0);
        }
    }
    assert(reg_view(t) =~= reg_view(s).insert(x.proto.id.0, x.entry())) by {
        assert forall|k: u64| reg_view(t).contains_key(k) <==> reg_view(s).insert(x.proto.id.0, x.entry()).contains_key(k) by {
            if reg_view(t).contains_key(k) {
                let a = choose|a: int| 0 <= a < t.len() && (#[trigger] t[a]).proto.id.0 == k;
                assert(t[a].proto.id.0 == s[a].proto.id.0);
            }
            if reg_view(s).contains_key(k) {
                let a = choose|a: int| 0 <= a < s.len() && (#[trigger] s[a]).proto.id.0 == k;
                assert(t[a].proto.id.0 == s[a].proto.id.0);
            }
            if k == x.proto.id.0 {
                assert(t[i] == x);
            }
        }
        assert forall|k: u64| reg_view(t).contains_key(k) implies reg_view(t)[k] == reg_view(s).insert(x.proto.id.0, x.entry())[k] by {
            let a = choose|a: int| 0 <= a < t.len() && (#[trigger] t[a]).proto.id.0 == k;
            lemma_reg_entry(t, a);
            if a != i {
                assert(t[a] == s[a]);
                lemma_reg_entry(s, a);
            } else {
                assert(t[a] == x);
            }
        }
    }
}

proof fn lemma_reg_remove<H, M>(s: Seq<Registered<H, M>>, i: int)
    requires
        ids_distinct(s),
        0 <= i < s.len(),
    ensures
        ids_distinct(s.remove(i)),
        reg_view(s.remove(i)) == reg_view(s).remove(s[i].proto.id.0),
{
    let t = s.remove(i);
    let id = s[i].proto.id.0;
    assert forall|a: int| 0 <= a < t.len() implies #[trigger] t[a] == (if a < i { s[a] } else { s[a + 1] }) by {}
    assert(ids_distinct(t)) by {
        assert forall|a: int, b: int|
            0 <= a < t.len() && 0 <= b < t.len() && a != b implies (#[trigger] t[a]).proto.id.0 != (
            #[trigger] t[b]).proto.id.0 by {
            let sa = if a < i { a } else { a + 1 };
            let sb = if b < i { b } else { b + 1 };
            assert(t[a] == s[sa] && t[b] == s[sb]);
        }
    }
    assert(reg_view(t) =~= reg_view(s).remove(id)) by {
        assert forall|k: u64| reg_view(t).contains_key(k) <==> reg_view(s).remove(id).contains_key(k) by {
            if reg_view(t).contains_key(k) {
                let a = choose|a: int| 0 <= a < t.len() && (#[trigger] t[a]).proto.id.0 == k;
                let sa = if a < i { a } else { a + 1 };
                assert(t[a] == s[sa]);
                assert(s[sa].proto.id.0 != id);
            }
            if reg_view(s).remove(id).contains_key(k) {
                let a = choose|a: int| 0 <= a < s.len() && (#[trigger] s[a]).proto.id.0 == k;
                assert(a != i);
                let ta = if a < i { a } else { a - 1 };
                assert(t[ta] == s[a]);
            }
        }
        assert forall|k: u64| reg_view(t).contains_key(k) implies reg_view(t)[k] == reg_view(s).remove(id)[k] by {
            let a = choose|a: int| 0 <= a < t.len() && (#[trigger] t[a]).proto.id.0 == k;
            lemma_reg_entry(t, a);
            let sa = if a < i { a } else { a + 1 };
            assert(t[a] == s[sa]);
            lemma_reg_entry(s, sa);
        }
    }
}

/// The protocol switch: the registered protocols, each identity at most once.
pub struct DefaultSwitch<H, M> {
    register: Vec<Registered<H, M>>,
}

impl<H, M> View for DefaultSwitch<H, M> {
    type V = Map<u64, RegisteredView<H, M>>;

    closed spec fn view(&self) -> Map<u64, RegisteredView<H, M>> {
        reg_view(self.register@)
    }
}

/// Whether two strings hold the same text.
fn same_text(a: &String, b: &String) -> (r: bool)
    ensures
        r == (a@ == b@),
{
    a.eq(b)
}

impl<H, M: MatchProtocol> DefaultSwitch<H, M> {
    /// Each identity is registered at most once.
    pub closed spec fn wf(&self) -> bool {
        ids_distinct(self.register@)
    }

    /// The registered identities in the order they were first registered.
    pub closed spec fn order(&self) -> Seq<u64> {
        self.register@.map_values(|e: Registered<H, M>| e.proto.id.0)
    }

    /// A switch with no protocol.
    pub fn new() -> (r: Self)
        ensures
            r.wf(),
            r@ == Map::<u64, RegisteredView<H, M>>::empty(),
            r.order() == Seq::<u64>::empty(),
    {
        let r = DefaultSwitch { register: Vec::new() };
        assert(r@ =~= Map::<u64, RegisteredView<H, M>>::empty());
        assert(r.order() =~= Seq::<u64>::empty());
        r
    }

    fn find(&self, id: u64) -> (r: Option<usize>)
        requires
            self.wf(),
        ensures
            r is Some <==> self@.contains_key(id),
            r matches Some(i) ==> i < self.register@.len() && self.register@[i as int].proto.id.0 == id,
    {
        let mut i: usize = 0;
        while i < self.register.len()
            invariant
                i <= self.register@.len(),
                forall|k: int| 0 <= k < i ==> (#[trigger] self.register@[k]).proto.id.0 != id,
            decreases self.register@.len() - i,
        {
            if self.register[i].proto.id.0 == id {
                return Some(i);
            }
            i = i + 1;
        }
        None
    }

    /// Registers a protocol with its handler and possibly a name matcher,
    /// replacing the registration of the same identity if there is one.
    pub fn register_handler(&mut self, proto: Protocol, matcher: Option<M>, handler: H)
        requires
            old(self).wf(),
        ensures
            final(self).wf(),
            final(self)@ == old(self)@.insert(
                proto.id.0,
                RegisteredView { name: proto.name@, matcher: matcher, handler: handler },
            ),
            old(self)@.contains_key(proto.id.0) ==> final(self).order() == old(self).order(),
            !old(self)@.contains_key(proto.id.0) ==> final(self).order() == old(self).order().push(proto.id.0),
    {
        let entry = Registered { proto, matcher, handler };
        match self.find(proto.id.0) {
            Some(i) => {
                let ghost s = self.register@;
                proof { lemma_reg_update(s, i as int, entry); }
                self.register.set(i, entry);
                assert(self.order() =~= old(self).order());
            },
            None => {
                proof { lemma_reg_push(self.register@, entry); }
                self.register.push(entry);
                assert(self.order() =~= old(self).order().push(proto.id.0));
            },
        }
    }

    /// Registers a protocol handler, replacing the registration of the same
    /// identity if there is one.
    pub fn add_handler(&mut self, proto: Protocol, handler: H)
        requires
            old(self).wf(),
        ensures
            final(self).wf(),
            final(self)@ == old(self)@.insert(
                proto.id.0,
                RegisteredView { name: proto.name@, matcher: None, handler: handler },
            ),
    {
        self.register_handler(proto, None, handler)
    }

    /// Registers a protocol handler that also takes the names its matcher
    /// accepts, replacing the registration of the same identity if there is
    /// one.
    pub fn add_match_handler(&mut self, proto: Protocol, matcher: M, handler: H)
        requires
            old(self).wf(),
        ensures
            final(self).wf(),
            final(self)@ == old(self)@.insert(
                proto.id.0,
                RegisteredView { name: proto.name@, matcher: Some(matcher), handler: handler },
            ),
    {
        self.register_handler(proto, Some(matcher), handler)
    }

    /// Removes the registration of a protocol identity, if there is one.
    pub fn remove_handler(&mut self, proto_id: ProtocolId)
        requires
            old(self).wf(),
        ensures
            final(self).wf(),
            final(self)@ == old(self)@.remove(proto_id.0),
    {
        match self.find(proto_id.0) {
            Some(i) => {
                proof { lemma_reg_remove(self.register@, i as int); }
                self.register.remove(i);
            },
            None => {
                assert(self@ =~= self@.remove(proto_id.0));
            },
        }
    }

    /// The number of registered protocols.
    pub fn len(&self) -> (r: usize)
        requires
            self.wf(),
        ensures
            r == self@.len(),
    {
        proof { self.lemma_len(); }
        self.register.len()
    }

    proof fn lemma_len(&self)
        requires
            self.wf(),
        ensures
            self@.dom().finite(),
            self@.len() == self.register@.len(),
        decreases self.register@.len(),
    {
        let s = self.register@;
        let ids = s.map_values(|r: Registered<H, M>| r.proto.id.0);
        assert(ids.no_duplicates()) by {
            assert forall|i: int, j: int| 0 <= i < ids.len() && 0 <= j < ids.len() && i != j implies ids[i] != ids[j] by {
                assert(ids[i] == s[i].proto.id.0 && ids[j] == s[j].proto.id.0);
            }
        }
        assert(self@.dom() =~= ids.to_set()) by {
            assert forall|k: u64| self@.dom().contains(k) <==> ids.to_set().contains(k) by {
                if self@.dom().contains(k) {
                    let i = choose|i: int| 0 <= i < s.len() && (#[trigger] s[i]).proto.id.0 == k;
                    assert(ids[i] == k);
                }
                if ids.to_set().contains(k) {
                    let i = choose|i: int| 0 <= i < ids.len() && ids[i] == k;
                    assert(s[i].proto.id.0 == k);
                }
            }
        }
        ids.unique_seq_to_set();
    }

    /// Whether the registration at index `i` accepts an offered protocol.
    fn accepts_at(&self, i: usize, offer: &OfferProtocol) -> (r: bool)
        requires
            self.wf(),
            i < self.register@.len(),
        ensures
            r == accepts(self.register@[i as int].proto.id.0, self.register@[i as int].entry(), offer@),
    {
        let e = &self.register[i];
        match offer {
            OfferProtocol::Id(id) => e.proto.id.0 == *id,
            OfferProtocol::Name(name) => {
                let own = e.proto.name.to_owned();
                if same_text(&own, name) {
                    true
                } else {
                    match &e.matcher {
                        Some(m) => m.match_name(name.as_str()),
                        None => false,
                    }
                }
            },
        }
    }

    /// The registration that answers an offer: one that accepts the first
    /// offered protocol that any registration accepts, if there is one.
    pub fn match_protocol(&self, offers: &Vec<OfferProtocol>) -> (r: Option<&Registered<H, M>>)
        requires
            self.wf(),
        ensures
            r is None <==> forall|k: int| 0 <= k < offers@.len() ==> !some_accepts(self@, #[trigger] offers@[k]@),
            r matches Some(e) ==> self@.contains_key(e.proto.id.0) && self@[e.proto.id.0] == e.entry()
                && answers(self@, offers@.map_values(|o: OfferProtocol| o@), e.proto.id.0),
            match chosen(self@, self.order(), offers@.map_values(|o: OfferProtocol| o@)) {
                None => r is None,
                Some(id) => r matches Some(e) && e.proto.id.0 == id,
            },
            (exists|k: int, id: u64|
                0 <= k < offers@.len() && #[trigger] self@.contains_key(id) && (#[trigger] offers@[k]@
                    == OfferView::Name(self@[id].name) || offers@[k]@ == OfferView::Id(id))) ==> r is Some,
    {
        let ghost ov = offers@.map_values(|o: OfferProtocol| o@);
        let ghost order = self.order();
        let mut k: usize = 0;
        assert(ov.skip(0) =~= ov);
        while k < offers.len()
            invariant
                self.wf(),
                k <= offers@.len(),
                ov == offers@.map_values(|o: OfferProtocol| o@),
                order == self.order(),
                forall|j: int| 0 <= j < k ==> !some_accepts(self@, #[trigger] ov[j]),
                chosen(self@, order, ov) == chosen(self@, order, ov.skip(k as int)),
            decreases offers@.len() - k,
        {
            let mut i: usize = 0;
            assert(order.skip(0) =~= order);
            while i < self.register.len()
                invariant
                    self.wf(),
                    k < offers@.len(),
                    i <= self.register@.len(),
                    ov == offers@.map_values(|o: OfferProtocol| o@),
                    order == self.order(),
                    forall|j: int| 0 <= j < k ==> !some_accepts(self@, #[trigger] ov[j]),
                    forall|a: int| 0 <= a < i ==> !accepts((#[trigger] self.register@[a]).proto.id.0, self.register@[a].entry(), ov[k as int]),
                    first_accepting(self@, order, ov[k as int]) == first_accepting(self@, order.skip(i as int), ov[k as int]),
                    chosen(self@, order, ov) == chosen(self@, order, ov.skip(k as int)),
                decreases self.register@.len() - i,
            {
                proof {
                    lemma_reg_entry(self.register@, i as int);
                    assert(order[i as int] == self.register@[i as int].proto.id.0);
                    assert(order.skip(i as int)[0] == order[i as int]);
                    assert(order.skip(i as int).drop_first() =~= order.skip(i + 1));
                }
                if self.accepts_at(i, &offers[k]) {
                    proof {
                        assert(accepts(self.register@[i as int].proto.id.0, self@[self.register@[i as int].proto.id.0], ov[k as int]));
                        assert(ov.skip(k as int)[0] == ov[k as int]);
                        assert(first_accepting(self@, order.skip(i as int), ov[k as int]) == Some(order[i as int]));
                        assert(chosen(self@, order, ov.skip(k as int)) == Some(order[i as int]));
                    }
                    return Some(&self.register[i]);
                }
                i = i + 1;
            }
            proof {
                assert(order.skip(i as int) =~= Seq::<u64>::empty());
                assert(first_accepting(self@, order, ov[k as int]) is None);
                assert(ov.skip(k as int)[0] == ov[k as int]);
                assert(ov.skip(k as int).drop_first() =~= ov.skip(k + 1));
            }
            proof {
                assert(!some_accepts(self@, ov[k as int])) by {
                    if some_accepts(self@, ov[k as int]) {
                        let id = choose|id: u64| #[trigger] self@.contains_key(id) && accepts(id, self@[id], ov[k as int]);
                        let a = choose|a: int| 0 <= a < self.register@.len() && (#[trigger] self.register@[a]).proto.id.0 == id;
                        lemma_reg_entry(self.register@, a);
                    }
                }
            }
            k = k + 1;
        }
        assert forall|j: int| 0 <= j < offers@.len() implies !some_accepts(self@, #[trigger] offers@[j]@) by {
            assert(ov[j] == offers@[j]@);
        }
        assert forall|j: int, id: u64|
            0 <= j < offers@.len() && #[trigger] self@.contains_key(id) implies !(#[trigger] offers@[j]@
                == OfferView::Name(self@[id].name) || offers@[j]@ == OfferView::Id(id)) by {
            assert(ov[j] == offers@[j]@);
            assert(!some_accepts(self@, ov[j]));
            if offers@[j]@ == OfferView::Name(self@[id].name) || offers@[j]@ == OfferView::Id(id) {
                assert(accepts(id, self@[id], ov[j]));
            }
        }
        assert(ov.skip(k as int) =~= Seq::<OfferView>::empty());
        None
    }

    /// The decision on a decoded offer: an empty offer is refused, an offer
    /// that no registration answers is refused, and otherwise the answering
    /// registration is returned.
    pub fn negotiate_offer(&self, offers: &Vec<OfferProtocol>) -> (r: Result<&Registered<H, M>, SwitchError>)
        requires
            self.wf(),
        ensures
            offers@.len() == 0 ==> r == Err::<&Registered<H, M>, SwitchError>(SwitchError::EmptyOffer),
            offers@.len() > 0 ==> (r is Err <==> forall|k: int| 0 <= k < offers@.len() ==> !some_accepts(self@, #[trigger] offers@[k]@)),
            r matches Err(e) ==> (e == SwitchError::EmptyOffer || e == SwitchError::NoProtocolMatch),
            offers@.len() > 0 && r is Err ==> r == Err::<&Registered<H, M>, SwitchError>(SwitchError::NoProtocolMatch),
            r matches Ok(e) ==> self@.contains_key(e.proto.id.0) && self@[e.proto.id.0] == e.entry()
                && answers(self@, offers@.map_values(|o: OfferProtocol| o@), e.proto.id.0)
                && chosen(self@, self.order(), offers@.map_values(|o: OfferProtocol| o@)) == Some(e.proto.id.0),
            (exists|k: int, id: u64|
                0 <= k < offers@.len() && #[trigger] self@.contains_key(id) && (#[trigger] offers@[k]@
                    == OfferView::Name(self@[id].name) || offers@[k]@ == OfferView::Id(id))) ==> r is Ok,
    {
        if offers.len() == 0 {
            return Err(SwitchError::EmptyOffer);
        }
        match self.match_protocol(offers) {
            Some(e) => Ok(e),
            None => Err(SwitchError::NoProtocolMatch),
        }
    }
}

impl<H, M: MatchProtocol> Default for DefaultSwitch<H, M> {
    fn default() -> (r: Self)
        ensures
            r.wf(),
            r@ == Map::<u64, RegisteredView<H, M>>::empty(),
            r.order() == Seq::<u64>::empty(),
    {
        DefaultSwitch::new()
    }
}

/// Once a protocol is registered, an offer of its identity is answered by
/// that registration.
pub proof fn lemma_registered_id_is_answered<H, M: MatchProtocol>(
    reg: Map<u64, RegisteredView<H, M>>,
    id: u64,
    entry: RegisteredView<H, M>,
)
    ensures
        answers(reg.insert(id, entry), seq![OfferView::Id(id)], id),
        reg.insert(id, entry)[id] == entry,
{
    let r2 = reg.insert(id, entry);
    let offers = seq![OfferView::Id(id)];
    assert(accepts(id, r2[id], offers[0]));
}

/// A registration always accepts an offer of its own name and of its own
/// identity, whatever its matcher; so an offer of a registered name alone is
/// answered, by that registration when no other registration accepts the
/// name.
pub proof fn lemma_own_name_is_answered<H, M: MatchProtocol>(
    reg: Map<u64, RegisteredView<H, M>>,
    id: u64,
)
    requires
        reg.contains_key(id),
    ensures
        accepts(id, reg[id], OfferView::Name(reg[id].name)),
        accepts(id, reg[id], OfferView::Id(id)),
        some_accepts(reg, OfferView::Name(reg[id].name)),
        answers(reg, seq![OfferView::Name(reg[id].name)], id),
{
    let offers = seq![OfferView::Name(reg[id].name)];
    assert(accepts(id, reg[id], offers[0]));
}

/// Once a protocol identity is removed, an offer of that identity alone is
/// answered by no registration.
pub proof fn lemma_removed_id_is_refused<H, M: MatchProtocol>(
    reg: Map<u64, RegisteredView<H, M>>,
    id: u64,
)
    ensures
        !some_accepts(reg.remove(id), OfferView::Id(id)),
{
}

} // verus!
