//! Connection states, directions and protocol identities.
pub mod conn_pool;
pub mod dialer;

use vstd::prelude::*;

use crate::text::{decimal, push_decimal};

verus! {

/// The bits that a connectedness code may occupy.
pub const CONNECTEDNESS_MASK: usize = 0b1110;

/// How this host stands towards a peer.
#[derive(Debug, Eq, PartialEq, Ord, PartialOrd, Clone, Copy, Structural)]
pub enum Connectedness {
    NotConnected,
    CanConnect,
    Connected,
    CannotConnect,
    Connecting,
}

impl Connectedness {
    /// The numeric code of each state: its ordinal shifted left by one bit.
    pub open spec fn code(self) -> usize {
        match self {
            Connectedness::NotConnected => 0,
            Connectedness::CanConnect => 2,
            Connectedness::Connected => 4,
            Connectedness::CannotConnect => 6,
            Connectedness::Connecting => 8,
        }
    }

    /// Whether `src` is the code of some state.
    pub open spec fn is_code(src: usize) -> bool {
        src == 0 || src == 2 || src == 4 || src == 6 || src == 8
    }

    /// The state whose code is `src`.
    pub open spec fn of_code(src: usize) -> Connectedness {
        if src == 0 {
            Connectedness::NotConnected
        } else if src == 2 {
            Connectedness::CanConnect
        } else if src == 4 {
            Connectedness::Connected
        } else if src == 6 {
            Connectedness::CannotConnect
        } else {
            Connectedness::Connecting
        }
    }

    /// The numeric code of this state; it never leaves `CONNECTEDNESS_MASK`.
    pub fn to_usize(self) -> (r: usize)
        ensures
            r == self.code(),
            r & CONNECTEDNESS_MASK == r,
    {
        let r: usize = match self {
            Connectedness::NotConnected => 0,
            Connectedness::CanConnect => 2,
            Connectedness::Connected => 4,
            Connectedness::CannotConnect => 6,
            Connectedness::Connecting => 8,
        };
        assert(r == 0 || r == 2 || r == 4 || r == 6 || r == 8);
        assert((r == 0usize || r == 2usize || r == 4usize || r == 6usize || r == 8usize)
            ==> r & 0b1110usize == r) by (bit_vector);
        r
    }

    /// The state whose code is `src`; `src` must be one of the five codes.
    pub fn from_usize(src: usize) -> (r: Connectedness)
        requires
            Connectedness::is_code(src),
        ensures
            r == Connectedness::of_code(src),
            r.code() == src,
    {
        if src == 0 {
            Connectedness::NotConnected
        } else if src == 2 {
            Connectedness::CanConnect
        } else if src == 4 {
            Connectedness::Connected
        } else if src == 6 {
            Connectedness::CannotConnect
        } else {
            Connectedness::Connecting
        }
    }

    /// The text shown for this state.
    pub open spec fn spec_label(self) -> Seq<char> {
        match self {
            Connectedness::NotConnected => "not connected"@,
            Connectedness::CanConnect => "can connect"@,
            Connectedness::Connected => "connected"@,
            Connectedness::CannotConnect => "unconnectable"@,
            Connectedness::Connecting => "connecting"@,
        }
    }

    /// The text shown for this state.
    pub fn label(&self) -> (r: &'static str)
        ensures
            r@ == self.spec_label(),
    {
        match self {
            Connectedness::NotConnected => "not connected",
            Connectedness::CanConnect => "can connect",
            Connectedness::Connected => "connected",
            Connectedness::CannotConnect => "unconnectable",
            Connectedness::Connecting => "connecting",
        }
    }
}

impl From<Connectedness> for usize {
    fn from(src: Connectedness) -> (r: usize) {
        src.to_usize()
    }
}

impl vstd::std_specs::convert::FromSpecImpl<Connectedness> for usize {
    open spec fn obeys_from_spec() -> bool {
        true
    }

    open spec fn from_spec(src: Connectedness) -> usize {
        src.code()
    }
}

/// Converting a state to its code and back gives the same state, and every
/// code converts to a state whose code it is.
pub proof fn lemma_connectedness_code_roundtrip(c: Connectedness, src: usize)
    ensures
        Connectedness::is_code(c.code()),
        Connectedness::of_code(c.code()) == c,
        Connectedness::is_code(src) ==> Connectedness::of_code(src).code() == src,
{
}

/// Direction of a connection or stream, seen from this host.
#[derive(Debug, PartialEq, Eq, Clone, Copy, Structural)]
pub enum Direction {
    Inbound,
    Outbound,
}

impl Direction {
    /// The text shown for this direction.
    pub open spec fn spec_label(self) -> Seq<char> {
        match self {
            Direction::Inbound => "inbound"@,
            Direction::Outbound => "outbound"@,
        }
    }

    /// The text shown for this direction.
    pub fn label(&self) -> (r: &'static str)
        ensures
            r@ == self.spec_label(),
    {
        match self {
            Direction::Inbound => "inbound",
            Direction::Outbound => "outbound",
        }
    }
}

/// The numeric identity of a protocol.
#[derive(Debug, PartialEq, Eq, Hash, Clone, Copy, Structural)]
pub struct ProtocolId(pub u64);

impl ProtocolId {
    /// The identity with number `id`.
    pub fn new(id: u64) -> (r: ProtocolId)
        ensures
            r.0 == id,
    {
        ProtocolId(id)
    }

    /// The number of this identity.
    pub fn value(&self) -> (r: u64)
        ensures
            r == self.0,
    {
        self.0
    }

    /// The decimal number of this identity.
    pub fn to_text(&self) -> (r: String)
        ensures
            r@ == decimal(self.0 as nat),
    {
        let mut s = String::new();
        push_decimal(&mut s, self.0);
        s
    }
}

impl From<u64> for ProtocolId {
    fn from(id: u64) -> (r: ProtocolId) {
        ProtocolId(id)
    }
}

impl vstd::std_specs::convert::FromSpecImpl<u64> for ProtocolId {
    open spec fn obeys_from_spec() -> bool {
        true
    }

    open spec fn from_spec(id: u64) -> ProtocolId {
        ProtocolId(id)
    }
}

/// A protocol: its numeric identity and its name.
#[derive(Debug, PartialEq, Eq, Hash, Clone, Copy)]
pub struct Protocol {
    pub id: ProtocolId,
    pub name: &'static str,
}

impl Protocol {
    /// The protocol with number `id` and name `name`.
    pub fn new(id: u64, name: &'static str) -> (r: Protocol)
        ensures
            r.id == ProtocolId(id),
            r.name@ == name@,
    {
        Protocol { id: ProtocolId::from(id), name }
    }

    /// The identity of this protocol.
    pub fn id(&self) -> (r: ProtocolId)
        ensures
            r == self.id,
    {
        self.id
    }

    /// The name of this protocol.
    pub fn name(&self) -> (r: &'static str)
        ensures
            r@ == self.name@,
    {
        self.name
    }

    /// The text shown for a protocol: `protocol <id> => <name>`.
    pub open spec fn spec_text(self) -> Seq<char> {
        "protocol "@ + decimal(self.id.0 as nat) + " => "@ + self.name@
    }

    /// The text shown for this protocol: `protocol <id> => <name>`.
    pub fn to_text(&self) -> (r: String)
        ensures
            r@ == self.spec_text(),
    {
        let mut s = String::new();
        s.append("protocol ");
        push_decimal(&mut s, self.id.0);
        s.append(" => ");
        s.append(self.name);
        s
    }
}

} // verus!
