//! A small peer-to-peer networking library: peer identities, multiaddresses,
//! peer books, connection pools, protocol switching and the bootstrap
//! protocol, with the decisions and data handling verified by Verus.
#![allow(unused_imports)]

pub mod bootstrap;
pub mod crypto;
pub mod host;
pub mod multiaddr;
pub mod network;
pub mod peer_store;
pub mod proto;
pub mod text;
pub mod tls;
pub mod transport;
