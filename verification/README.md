# wormhole

A small peer-to-peer networking library over QUIC, with its logic verified
by Verus.

- `src/` is the verified library: peer identities and keys (`crypto`),
  multiaddresses (`multiaddr`), the protobuf wire format (`proto`), the
  self-signed TLS certificate with the libp2p extension and its
  verification (`tls`), peer books (`peer_store`), the connection pool and
  the dialer's decisions (`network`), protocol switching (`host`), the
  transport's checks (`transport`) and the bootstrap protocol (`bootstrap`).
  Calls into `ophelia`, `parity-multihash`, `parity-multiaddr`, `bs58`,
  `x509-parser` and `rcgen` go through a few small functions whose
  contracts, taken as given, say what those crates do.
- `app/` is the asynchronous plumbing around it: QUIC endpoints (`quinn`),
  the `rustls` verifiers, connection and stream handling, and the bootstrap
  protocol's stream loop. It performs the I/O the library asks for and
  hands the outcome back.
- `tests/` runs the library against the real outside crates.
