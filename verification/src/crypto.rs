//! Host keys, signatures, hashes and the peer identities derived from keys.
//!
//! Keys and signatures are held as their serialized bytes; the secp256k1
//! arithmetic, Keccak-256, multihash framing and base58 text are done by
//! the `ophelia`, `parity-multihash` and `bs58` crates behind the trusted
//! items of this module.
use vstd::prelude::*;

use ophelia::{Crypto, PrivateKey as _, PublicKey as _, Signature as _};
use ophelia_hasher::Hasher as _;
use ophelia_secp256k1::{Secp256k1, Secp256k1PrivateKey, Secp256k1PublicKey, Secp256k1Signature};
pub use parity_multihash::Multihash;

verus! {

#[verifier::external_type_specification]
#[verifier::external_body]
pub struct ExMultihash(parity_multihash::Multihash);

// ---------------------------------------------------------------------------
// Names for what the outside crates compute.

/// What a multihash holds: its byte representation.
pub uninterp spec fn multihash_bytes(h: Multihash) -> Seq<u8>;

/// Whether `Multihash::from_bytes` accepts these bytes.
pub uninterp spec fn multihash_valid(bytes: Seq<u8>) -> bool;

/// The Keccak-256 digest that `parity_multihash::encode` writes for its input.
pub uninterp spec fn multihash_keccak256_digest(input: Seq<u8>) -> Seq<u8>;

/// The Keccak-256 digest that `ophelia_hasher_keccak256::Keccak256` computes.
pub uninterp spec fn keccak256_digest(data: Seq<u8>) -> Seq<u8>;

/// Whether libsecp256k1 accepts these bytes as a secret key.
pub uninterp spec fn secp256k1_secret_valid(bytes: Seq<u8>) -> bool;

/// The compressed serialization of the public key of a secret key.
pub uninterp spec fn secp256k1_public_of(secret: Seq<u8>) -> Seq<u8>;

/// The compressed serialization of the public key libsecp256k1 parses from
/// these bytes, if it parses one.
pub uninterp spec fn secp256k1_public_parsed(bytes: Seq<u8>) -> Option<Seq<u8>>;

/// The compact serialization of the signature libsecp256k1 parses from these
/// bytes, if it parses one.
pub uninterp spec fn secp256k1_signature_parsed(bytes: Seq<u8>) -> Option<Seq<u8>>;

/// Whether libsecp256k1 parses these bytes as a public key.
pub open spec fn secp256k1_public_valid(bytes: Seq<u8>) -> bool {
    secp256k1_public_parsed(bytes) is Some
}

/// Whether libsecp256k1 parses these bytes as a compact signature.
pub open spec fn secp256k1_signature_valid(bytes: Seq<u8>) -> bool {
    secp256k1_signature_parsed(bytes) is Some
}

/// The compact signature of a 32-byte message under a secret key.
pub uninterp spec fn secp256k1_sign(secret: Seq<u8>, msg: Seq<u8>) -> Seq<u8>;

/// Whether a compact signature of a 32-byte message verifies under a public key.
pub uninterp spec fn secp256k1_verifies(msg: Seq<u8>, sig: Seq<u8>, public: Seq<u8>) -> bool;

/// The base58 text of some bytes.
pub uninterp spec fn bs58_text(bytes: Seq<u8>) -> Seq<char>;

// ---------------------------------------------------------------------------
// Calls into the outside crates, whose contracts are taken as given.

/// `ophelia_hasher_keccak256::Keccak256::digest`: a 32-byte Keccak-256 digest.
#[verifier::external_body]
fn keccak256_digest_of(data: &[u8]) -> (r: Vec<u8>)
    ensures
        r@ == keccak256_digest(data@),
        r@.len() == 32,
{
    ophelia_hasher_keccak256::Keccak256.digest(data).to_bytes().to_vec()
}

/// `parity_multihash::encode` with `Hash::Keccak256`: the multihash code 0x1b,
/// the digest length 32, then the Keccak-256 digest of the input. This hash
/// kind never makes `encode` fail.
#[verifier::external_body]
fn multihash_encode_keccak256(input: &[u8]) -> (r: Multihash)
    ensures
        multihash_bytes(r).len() == 34,
        multihash_bytes(r) == seq![0x1bu8, 0x20u8] + multihash_keccak256_digest(input@),
        multihash_valid(multihash_bytes(r)),
{
    parity_multihash::encode(parity_multihash::Hash::Keccak256, input)
        .expect("keccak256 multihash encoding does not fail")
}

/// `Multihash::from_bytes`: accepts exactly the valid multihashes and keeps
/// the bytes as they are.
#[verifier::external_body]
fn multihash_from_bytes(bytes: Vec<u8>) -> (r: Option<Multihash>)
    ensures
        r is Some <==> multihash_valid(bytes@),
        r matches Some(h) ==> multihash_bytes(h) == bytes@,
{
    Multihash::from_bytes(bytes).ok()
}

/// `Multihash::as_bytes`: the bytes of a multihash, which its constructors
/// (`from_bytes`, `encode`, `random`) only ever make valid.
#[verifier::external_body]
fn multihash_as_bytes(h: &Multihash) -> (r: &[u8])
    ensures
        r@ == multihash_bytes(*h),
        multihash_valid(r@),
{
    h.as_bytes()
}

/// `Multihash::clone`: the same bytes.
#[verifier::external_body]
fn multihash_clone(h: &Multihash) -> (r: Multihash)
    ensures
        multihash_bytes(r) == multihash_bytes(*h),
{
    h.clone()
}

/// `Multihash == Multihash`: equality of the byte representations.
#[verifier::external_body]
fn multihash_eq(a: &Multihash, b: &Multihash) -> (r: bool)
    ensures
        r == (multihash_bytes(*a) == multihash_bytes(*b)),
{
    a == b
}

/// `bs58::encode(..).into_string()`.
#[verifier::external_body]
fn bs58_encode(data: &[u8]) -> (r: String)
    ensures
        r@ == bs58_text(data@),
{
    bs58::encode(data).into_string()
}

/// `Secp256k1PrivateKey::try_from`: whether the bytes are a secret key; such
/// keys are 32 bytes long.
#[verifier::external_body]
fn secp256k1_check_secret(data: &[u8]) -> (r: bool)
    ensures
        r == secp256k1_secret_valid(data@),
        r ==> data@.len() == 32,
{
    Secp256k1PrivateKey::try_from(data).is_ok()
}

/// `Secp256k1::pub_key`: the compressed (33-byte) public key of a secret key,
/// itself a valid public key in its canonical form.
#[verifier::external_body]
fn secp256k1_pub_key(secret: &[u8]) -> (r: Vec<u8>)
    requires
        secp256k1_secret_valid(secret@),
    ensures
        r@ == secp256k1_public_of(secret@),
        r@.len() == 33,
        secp256k1_public_parsed(r@) == Some(r@),
{
    Secp256k1::pub_key(secret).expect("valid secret key").to_bytes().to_vec()
}

/// `Secp256k1::sign_message`: the compact (64-byte) signature of a 32-byte
/// message, which verifies under the public key of the signing key.
#[verifier::external_body]
fn secp256k1_sign_message(secret: &[u8], msg: &[u8]) -> (r: Vec<u8>)
    requires
        secp256k1_secret_valid(secret@),
        msg@.len() == 32,
    ensures
        r@ == secp256k1_sign(secret@, msg@),
        r@.len() == 64,
        secp256k1_signature_parsed(r@) == Some(r@),
        secp256k1_verifies(msg@, r@, secp256k1_public_of(secret@)),
{
    Secp256k1::sign_message(msg, secret).expect("valid key and message").to_bytes().to_vec()
}

/// `Secp256k1::verify_signature` on a 32-byte message, a parsable signature
/// and a parsable public key: whether the signature verifies.
#[verifier::external_body]
fn secp256k1_verify_signature(msg: &[u8], sig: &[u8], public: &[u8]) -> (r: bool)
    requires
        msg@.len() == 32,
        secp256k1_signature_valid(sig@),
        secp256k1_public_valid(public@),
    ensures
        r == secp256k1_verifies(msg@, sig@, public@),
{
    Secp256k1::verify_signature(msg, sig, public).is_ok()
}

/// `Secp256k1PublicKey::try_from` then `to_bytes`: the canonical compressed
/// (33-byte) form of a parsable public key, which parses to itself.
#[verifier::external_body]
fn secp256k1_parse_public(data: &[u8]) -> (r: Option<Vec<u8>>)
    ensures
        match secp256k1_public_parsed(data@) {
            None => r is None,
            Some(k) => r matches Some(b) && b@ == k,
        },
        r matches Some(b) ==> secp256k1_public_parsed(b@) == Some(b@) && b@.len() == 33,
{
    Secp256k1PublicKey::try_from(data).ok().map(|k| k.to_bytes().to_vec())
}

/// `Secp256k1Signature::try_from` then `to_bytes`: the compact form of a
/// parsable compact signature, which parses to itself.
#[verifier::external_body]
fn secp256k1_parse_signature(data: &[u8]) -> (r: Option<Vec<u8>>)
    ensures
        match secp256k1_signature_parsed(data@) {
            None => r is None,
            Some(g) => r matches Some(b) && b@ == g,
        },
        r matches Some(b) ==> secp256k1_signature_parsed(b@) == Some(b@),
{
    Secp256k1Signature::try_from(data).ok().map(|s| s.to_bytes().to_vec())
}

// ---------------------------------------------------------------------------
// Verified code.

/// Why key or signature material was refused.
#[derive(Debug, PartialEq, Eq, Clone, Copy, Structural)]
pub enum CryptoError {
    InvalidPrivateKey,
    InvalidPublicKey,
    InvalidSignature,
}

/// A 32-byte hash value.
pub struct HashValue {
    bytes: Vec<u8>,
}

impl View for HashValue {
    type V = Seq<u8>;

    closed spec fn view(&self) -> Seq<u8> {
        self.bytes@
    }
}

impl HashValue {
    #[verifier::type_invariant]
    closed spec fn wf(self) -> bool {
        self.bytes@.len() == 32
    }

    /// The 32 bytes of this hash value.
    pub fn as_slice(&self) -> (r: &[u8])
        ensures
            r@ == self@,
            r@.len() == 32,
    {
        proof { use_type_invariant(self); }
        self.bytes.as_slice()
    }
}

/// The Keccak-256 hash of `obj`.
pub fn keccak256_hash(obj: &[u8]) -> (r: HashValue)
    ensures
        r@ == keccak256_digest(obj@),
        r@.len() == 32,
{
    HashValue { bytes: keccak256_digest_of(obj) }
}

/// A compact secp256k1 signature.
pub struct Signature {
    bytes: Vec<u8>,
}

impl View for Signature {
    type V = Seq<u8>;

    closed spec fn view(&self) -> Seq<u8> {
        self.bytes@
    }
}

impl Signature {
    #[verifier::type_invariant]
    closed spec fn wf(self) -> bool {
        secp256k1_signature_parsed(self.bytes@) == Some(self.bytes@)
    }

    /// Parses a compact signature.
    pub fn from_slice(data: &[u8]) -> (r: Result<Signature, CryptoError>)
        ensures
            r is Ok <==> secp256k1_signature_valid(data@),
            r matches Ok(s) ==> Some(s@) == secp256k1_signature_parsed(data@),
            r matches Err(e) ==> e == CryptoError::InvalidSignature,
    {
        match secp256k1_parse_signature(data) {
            Some(bytes) => Ok(Signature { bytes }),
            None => Err(CryptoError::InvalidSignature),
        }
    }

    /// The compact bytes of this signature.
    pub fn to_bytes(&self) -> (r: Vec<u8>)
        ensures
            r@ == self@,
    {
        self.bytes.clone()
    }
}

/// A secp256k1 secret key.
pub struct PrivateKey {
    bytes: Vec<u8>,
}

impl View for PrivateKey {
    type V = Seq<u8>;

    closed spec fn view(&self) -> Seq<u8> {
        self.bytes@
    }
}

impl PrivateKey {
    #[verifier::type_invariant]
    closed spec fn wf(self) -> bool {
        secp256k1_secret_valid(self.bytes@)
    }

    /// Parses a 32-byte secret key.
    pub fn from_slice(data: &[u8]) -> (r: Result<PrivateKey, CryptoError>)
        ensures
            r is Ok <==> secp256k1_secret_valid(data@),
            r matches Ok(k) ==> k@ == data@,
            r matches Err(e) ==> e == CryptoError::InvalidPrivateKey,
    {
        if secp256k1_check_secret(data) {
            Ok(PrivateKey { bytes: vstd::slice::slice_to_vec(data) })
        } else {
            Err(CryptoError::InvalidPrivateKey)
        }
    }

    /// Signs a hash value; the signature verifies under this key's public key.
    pub fn sign(&self, msg: &HashValue) -> (r: Result<Signature, CryptoError>)
        ensures
            r matches Ok(s) && s@ == secp256k1_sign(self@, msg@)
                && secp256k1_verifies(msg@, s@, secp256k1_public_of(self@))
                && secp256k1_signature_parsed(s@) == Some(s@) && s@.len() == 64,
    {
        proof { use_type_invariant(self); }
        let bytes = secp256k1_sign_message(self.bytes.as_slice(), msg.as_slice());
        Ok(Signature { bytes })
    }

    /// The public key of this secret key.
    pub fn pubkey(&self) -> (r: PublicKey)
        ensures
            r@ == secp256k1_public_of(self@),
    {
        proof { use_type_invariant(self); }
        PublicKey { bytes: secp256k1_pub_key(self.bytes.as_slice()) }
    }
}

/// A secp256k1 public key, held in its compressed form.
pub struct PublicKey {
    bytes: Vec<u8>,
}

impl View for PublicKey {
    type V = Seq<u8>;

    closed spec fn view(&self) -> Seq<u8> {
        self.bytes@
    }
}

/// The peer identity bytes derived from the bytes of a public key: the
/// Keccak-256 multihash of its Keccak-256 digest.
pub open spec fn peer_id_of(public: Seq<u8>) -> Seq<u8> {
    seq![0x1bu8, 0x20u8] + multihash_keccak256_digest(keccak256_digest(public))
}

impl PublicKey {
    #[verifier::type_invariant]
    closed spec fn wf(self) -> bool {
        secp256k1_public_parsed(self.bytes@) == Some(self.bytes@) && self.bytes@.len() == 33
    }

    /// Parses a public key; it is kept in its compressed form.
    pub fn from_slice(data: &[u8]) -> (r: Result<PublicKey, CryptoError>)
        ensures
            r is Ok <==> secp256k1_public_valid(data@),
            r matches Ok(k) ==> Some(k@) == secp256k1_public_parsed(data@),
            r matches Err(e) ==> e == CryptoError::InvalidPublicKey,
    {
        match secp256k1_parse_public(data) {
            Some(bytes) => Ok(PublicKey { bytes }),
            None => Err(CryptoError::InvalidPublicKey),
        }
    }

    /// The compressed bytes of this key: 33 bytes that parse to themselves.
    pub fn to_bytes(&self) -> (r: Vec<u8>)
        ensures
            r@ == self@,
            secp256k1_public_parsed(r@) == Some(r@),
            r@.len() == 33,
    {
        proof { use_type_invariant(self); }
        self.bytes.clone()
    }

    /// The compressed bytes of this key.
    pub fn as_slice(&self) -> (r: &[u8])
        ensures
            r@ == self@,
    {
        self.bytes.as_slice()
    }

    /// The base58 text of this key.
    pub fn string(&self) -> (r: String)
        ensures
            r@ == bs58_text(self@),
    {
        bs58_encode(self.bytes.as_slice())
    }

    /// Whether `sig` is this key's signature of `msg`.
    pub fn verify(&self, msg: &HashValue, sig: &Signature) -> (r: Result<(), CryptoError>)
        ensures
            r is Ok <==> secp256k1_verifies(msg@, sig@, self@),
            r matches Err(e) ==> e == CryptoError::InvalidSignature,
    {
        proof {
            use_type_invariant(self);
            use_type_invariant(sig);
        }
        if secp256k1_verify_signature(msg.as_slice(), sig.bytes.as_slice(), self.bytes.as_slice()) {
            Ok(())
        } else {
            Err(CryptoError::InvalidSignature)
        }
    }

    /// The peer identity of this key.
    pub fn peer_id(&self) -> (r: PeerId)
        ensures
            r@ == peer_id_of(self@),
    {
        let hash = keccak256_hash(self.bytes.as_slice());
        PeerId(multihash_encode_keccak256(hash.as_slice()))
    }
}

impl Clone for PublicKey {
    fn clone(&self) -> (r: PublicKey)
        ensures
            r@ == self@,
    {
        proof { use_type_invariant(self); }
        PublicKey { bytes: self.bytes.clone() }
    }
}

/// A peer identity: the multihash of the peer's public key.
pub struct PeerId(pub(crate) Multihash);

impl View for PeerId {
    type V = Seq<u8>;

    closed spec fn view(&self) -> Seq<u8> {
        multihash_bytes(self.0)
    }
}

impl PeerId {
    /// A peer identity from the bytes of a multihash.
    pub fn from_bytes(bytes: Vec<u8>) -> (r: Option<PeerId>)
        ensures
            r is Some <==> multihash_valid(bytes@),
            r matches Some(p) ==> p@ == bytes@,
    {
        match multihash_from_bytes(bytes) {
            Some(h) => Some(PeerId(h)),
            None => None,
        }
    }

    /// The multihash bytes of this identity, a valid multihash.
    pub fn as_slice(&self) -> (r: &[u8])
        ensures
            r@ == self@,
            multihash_valid(r@),
    {
        multihash_as_bytes(&self.0)
    }

    /// The base58 text of this identity.
    pub fn string(&self) -> (r: String)
        ensures
            r@ == bs58_text(self@),
    {
        bs58_encode(multihash_as_bytes(&self.0))
    }

    /// The multihash of this identity.
    pub fn into_inner(self) -> (r: Multihash)
        ensures
            multihash_bytes(r) == self@,
    {
        self.0
    }

    /// Whether two identities are the same.
    pub fn same(&self, other: &PeerId) -> (r: bool)
        ensures
            r == (self@ == other@),
    {
        multihash_eq(&self.0, &other.0)
    }
}

impl Clone for PeerId {
    fn clone(&self) -> (r: PeerId)
        ensures
            r@ == self@,
    {
        PeerId(multihash_clone(&self.0))
    }
}

} // verus!
