//! Hosts: protocol negotiation over streams.
pub mod switch;

use vstd::prelude::*;

verus! {

/// Why opening a protocol stream failed after the stream was opened.
#[derive(Debug, PartialEq, Eq, Clone, Copy, Structural)]
pub enum HostError {
    /// The remote side sent no protocol `Use` message.
    NoProtocolUse,
}

} // verus!
