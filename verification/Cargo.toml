[package]
name = "wormhole"
version = "0.1.0"
edition = "2021"
publish = false

[dependencies]
parity-multiaddr = "=0.7.3"
parity-multihash = "=0.2.3"
serde = "=1.0.118"
ophelia = "=0.2.0"
ophelia-secp256k1 = "=0.2.0"
ophelia-hasher = "=0.2.0"
ophelia-hasher-keccak256 = "=0.2.0"
bs58 = "=0.3.1"
prost = "=0.6.1"
x509-parser = "=0.6.5"
rcgen = "=0.7.0"
rustls = { version = "=0.16.0", features = ["dangerous_configuration"] }
webpki = "=0.21.2"
quinn = "=0.5.4"
quinn-proto = "=0.5.2"
tokio = { version = "=0.2.25", features = ["full"] }
futures = "=0.3.34"
futures_codec = "=0.3.4"
bytes = "=0.5.6"
creep = "=0.3.0"
async-trait = "=0.1.92"
anyhow = "=1.0.104"
thiserror = "=1.0.69"
tracing = "=0.1.44"
log = "=0.4.35"
dyn-clone = "=1.0.20"
derive_more = "=0.99.20"
