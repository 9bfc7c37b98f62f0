//! The libp2p TLS certificate extension: the host key signs the certificate key.
//!
//! A host's self-signed certificate carries an extension, under the libp2p
//! object identifier, whose content is a `SignedKey` message: the host's
//! public key and the host's signature of the Keccak-256 hash of the
//! certificate key salted with the prefix `libp2p-tls-handshake`. A peer
//! certificate is accepted when that extension is present, well formed,
//! names a secp256k1 key, and its signature verifies.
use vstd::prelude::*;

use crate::crypto::{
    bs58_text, keccak256_digest, keccak256_hash, peer_id_of, secp256k1_public_of,
    secp256k1_public_parsed, secp256k1_public_valid, secp256k1_sign, secp256k1_signature_parsed,
    secp256k1_signature_valid, secp256k1_verifies, CryptoError, PrivateKey, PublicKey, Signature,
};
use crate::proto::{
    encodable, field_bytes, fields_bytes, fields_of, fields_view, lemma_fields_bytes_push,
    lemma_fields_roundtrip, read_fields, write_bytes_field, write_varint_field, FieldValue,
    FieldView, WireValue, RECURSION_LIMIT,
};

verus! {

// ---------------------------------------------------------------------------
// The SignedKey message.

/// The kinds of host key a signed key may name.
#[derive(Debug, PartialEq, Eq, Clone, Copy, Structural)]
pub enum KeyType {
    Rsa,
    Ed25519,
    Secp256k1,
    Ecdsa,
}

impl KeyType {
    /// The number of the key kind on the wire.
    pub open spec fn spec_code(self) -> i32 {
        match self {
            KeyType::Rsa => 0,
            KeyType::Ed25519 => 1,
            KeyType::Secp256k1 => 2,
            KeyType::Ecdsa => 3,
        }
    }

    /// The number of the key kind on the wire.
    pub fn code(self) -> (r: i32)
        ensures
            r == self.spec_code(),
    {
        match self {
            KeyType::Rsa => 0,
            KeyType::Ed25519 => 1,
            KeyType::Secp256k1 => 2,
            KeyType::Ecdsa => 3,
        }
    }

    /// The text shown for the key kind.
    pub fn label(self) -> (r: &'static str)
        ensures
            r@ == (match self {
                KeyType::Rsa => "rsa"@,
                KeyType::Ed25519 => "ed25519"@,
                KeyType::Secp256k1 => "secp256k1"@,
                KeyType::Ecdsa => "ecdsa"@,
            }),
    {
        match self {
            KeyType::Rsa => "rsa",
            KeyType::Ed25519 => "ed25519",
            KeyType::Secp256k1 => "secp256k1",
            KeyType::Ecdsa => "ecdsa",
        }
    }
}

/// The public key part of a signed key: the key kind and the key bytes.
pub struct KeyMessage {
    pub key_type: i32,
    pub data: Vec<u8>,
}

/// A host key and its signature of the certificate key.
pub struct SignedKey {
    pub public_key: Option<KeyMessage>,
    pub signature: Vec<u8>,
}

/// A key message, as the logic reads it.
pub struct KeyMessageView {
    pub key_type: i32,
    pub data: Seq<u8>,
}

/// A signed key, as the logic reads it.
pub struct SignedKeyView {
    pub public_key: Option<KeyMessageView>,
    pub signature: Seq<u8>,
}

impl View for KeyMessage {
    type V = KeyMessageView;

    open spec fn view(&self) -> KeyMessageView {
        KeyMessageView { key_type: self.key_type, data: self.data@ }
    }
}

impl View for SignedKey {
    type V = SignedKeyView;

    open spec fn view(&self) -> SignedKeyView {
        SignedKeyView {
            public_key: match self.public_key {
                Some(k) => Some(k@),
                None => None,
            },
            signature: self.signature@,
        }
    }
}

/// The empty key message.
pub open spec fn empty_key() -> KeyMessageView {
    KeyMessageView { key_type: 0, data: Seq::empty() }
}

/// Reading one field of a key message into what was read so far.
pub open spec fn key_step(acc: KeyMessageView, f: FieldView) -> Option<KeyMessageView> {
    if f.tag == 1 {
        match f.value {
            WireValue::Varint(v) => Some(KeyMessageView { key_type: v as i32, ..acc }),
            _ => None,
        }
    } else if f.tag == 2 {
        match f.value {
            WireValue::Bytes(b) => Some(KeyMessageView { data: b, ..acc }),
            _ => None,
        }
    } else {
        Some(acc)
    }
}

/// Reading the fields of a key message in order into `init`.
pub open spec fn key_fold(init: KeyMessageView, fs: Seq<FieldView>) -> Option<KeyMessageView>
    decreases fs.len(),
{
    if fs.len() == 0 {
        Some(init)
    } else {
        match key_fold(init, fs.drop_last()) {
            Some(acc) => key_step(acc, fs.last()),
            None => None,
        }
    }
}

/// Reading one field of a signed key into what was read so far; a key
/// message field is merged into the key read so far.
pub open spec fn signed_step(acc: SignedKeyView, f: FieldView) -> Option<SignedKeyView> {
    if f.tag == 1 {
        match f.value {
            WireValue::Bytes(b) => match fields_of(b, (RECURSION_LIMIT - 1) as nat) {
                Some(kfs) => match key_fold(
                    match acc.public_key {
                        Some(k) => k,
                        None => empty_key(),
                    },
                    kfs,
                ) {
                    Some(k) => Some(SignedKeyView { public_key: Some(k), ..acc }),
                    None => None,
                },
                None => None,
            },
            _ => None,
        }
    } else if f.tag == 2 {
        match f.value {
            WireValue::Bytes(b) => Some(SignedKeyView { signature: b, ..acc }),
            _ => None,
        }
    } else {
        Some(acc)
    }
}

/// Reading the fields of a signed key in order.
pub open spec fn signed_fold(fs: Seq<FieldView>) -> Option<SignedKeyView>
    decreases fs.len(),
{
    if fs.len() == 0 {
        Some(SignedKeyView { public_key: None, signature: Seq::empty() })
    } else {
        match signed_fold(fs.drop_last()) {
            Some(acc) => signed_step(acc, fs.last()),
            None => None,
        }
    }
}

/// The signed key that `s` encodes, if it is well formed.
pub open spec fn signed_key_decoded(s: Seq<u8>) -> Option<SignedKeyView> {
    match fields_of(s, RECURSION_LIMIT as nat) {
        Some(fs) => signed_fold(fs),
        None => None,
    }
}

/// The fields written for a key message: those not at their default.
pub open spec fn key_fields(k: KeyMessageView) -> Seq<FieldView> {
    (if k.key_type != 0 {
        seq![FieldView { tag: 1, value: WireValue::Varint(k.key_type as u64) }]
    } else {
        Seq::empty()
    }) + (if k.data.len() > 0 {
        seq![FieldView { tag: 2, value: WireValue::Bytes(k.data) }]
    } else {
        Seq::empty()
    })
}

/// The encoding of a key message.
pub open spec fn key_encoded(k: KeyMessageView) -> Seq<u8> {
    fields_bytes(key_fields(k))
}

/// The fields written for a signed key: the key message if there is one,
/// then the signature if it is not empty.
pub open spec fn signed_fields(s: SignedKeyView) -> Seq<FieldView> {
    (match s.public_key {
        Some(k) => seq![FieldView { tag: 1, value: WireValue::Bytes(key_encoded(k)) }],
        None => Seq::empty(),
    }) + (if s.signature.len() > 0 {
        seq![FieldView { tag: 2, value: WireValue::Bytes(s.signature) }]
    } else {
        Seq::empty()
    })
}

/// The encoding of a signed key.
pub open spec fn signed_key_encoded(s: SignedKeyView) -> Seq<u8> {
    fields_bytes(signed_fields(s))
}

proof fn lemma_two_fields(a: FieldView, b: FieldView)
    ensures
        fields_bytes(seq![a, b]) == field_bytes(a) + field_bytes(b),
        fields_bytes(seq![a]) == field_bytes(a),
        fields_bytes(Seq::<FieldView>::empty()) == Seq::<u8>::empty(),
{
    lemma_fields_bytes_push(Seq::<FieldView>::empty(), a);
    lemma_fields_bytes_push(seq![a], b);
    assert(Seq::<FieldView>::empty().push(a) =~= seq![a]);
    assert(seq![a].push(b) =~= seq![a, b]);
    assert(fields_bytes(Seq::<FieldView>::empty()) =~= Seq::<u8>::empty());
    assert(Seq::<u8>::empty() + field_bytes(a) =~= field_bytes(a));
}

proof fn lemma_key_type_cast(t: i32)
    ensures
        ((t as u64) as i32) == t,
{
    assert(((t as u64) as i32) == t) by (bit_vector);
}

/// A key message read back from its encoding into the empty key is the
/// message that was written.
proof fn lemma_key_roundtrip(k: KeyMessageView)
    requires
        k.data.len() < 0x1_0000_0000_0000_0000,
    ensures
        fields_of(key_encoded(k), (RECURSION_LIMIT - 1) as nat) == Some(key_fields(k)),
        key_fold(empty_key(), key_fields(k)) == Some(k),
{
    let fs = key_fields(k);
    assert forall|i: int| 0 <= i < fs.len() implies encodable(#[trigger] fs[i]) by {}
    lemma_fields_roundtrip(fs, (RECURSION_LIMIT - 1) as nat);
    lemma_key_type_cast(k.key_type);
    let e = empty_key();
    if k.key_type != 0 && k.data.len() > 0 {
        assert(fs.drop_last() =~= seq![fs[0]]);
        assert(fs.drop_last().drop_last() =~= Seq::<FieldView>::empty());
        assert(key_fold(e, fs.drop_last().drop_last()) == Some(e));
        assert(key_fold(e, fs.drop_last()) == Some(KeyMessageView { key_type: k.key_type, ..e }));
        assert(key_fold(e, fs) == Some(k));
    } else if k.key_type != 0 {
        assert(fs.drop_last() =~= Seq::<FieldView>::empty());
        assert(k.data =~= Seq::<u8>::empty());
        assert(key_fold(e, fs.drop_last()) == Some(e));
        assert(key_fold(e, fs) == Some(k));
    } else if k.data.len() > 0 {
        assert(fs.drop_last() =~= Seq::<FieldView>::empty());
        assert(key_fold(e, fs.drop_last()) == Some(e));
        assert(key_fold(e, fs) == Some(k));
    } else {
        assert(fs =~= Seq::<FieldView>::empty());
        assert(k.data =~= Seq::<u8>::empty());
        assert(key_fold(e, fs) == Some(k));
    }
}

/// A signed key read back from its encoding is the signed key that was
/// written, as long as every encoded length fits a varint.
pub proof fn lemma_signed_key_roundtrip(s: SignedKeyView)
    requires
        s.signature.len() < 0x1_0000_0000_0000_0000,
        s.public_key matches Some(k) ==> key_encoded(k).len() < 0x1_0000_0000_0000_0000
            && k.data.len() < 0x1_0000_0000_0000_0000,
    ensures
        signed_key_decoded(signed_key_encoded(s)) == Some(s),
{
    let fs = signed_fields(s);
    assert forall|i: int| 0 <= i < fs.len() implies encodable(#[trigger] fs[i]) by {}
    lemma_fields_roundtrip(fs, RECURSION_LIMIT as nat);
    let e = SignedKeyView { public_key: None, signature: Seq::empty() };
    match s.public_key {
        Some(k) => {
            lemma_key_roundtrip(k);
            if s.signature.len() > 0 {
                assert(fs.drop_last() =~= seq![fs[0]]);
                assert(fs.drop_last().drop_last() =~= Seq::<FieldView>::empty());
                assert(signed_fold(fs.drop_last().drop_last()) == Some(e));
                assert(signed_fold(fs.drop_last()) == Some(SignedKeyView { public_key: Some(k), ..e }));
                assert(signed_fold(fs) == Some(s));
            } else {
                assert(fs.drop_last() =~= Seq::<FieldView>::empty());
                assert(s.signature =~= Seq::<u8>::empty());
                assert(signed_fold(fs.drop_last()) == Some(e));
                assert(signed_fold(fs) == Some(s));
            }
        },
        None => {
            if s.signature.len() > 0 {
                assert(fs.drop_last() =~= Seq::<FieldView>::empty());
                assert(signed_fold(fs.drop_last()) == Some(e));
                assert(signed_fold(fs) == Some(s));
            } else {
                assert(fs =~= Seq::<FieldView>::empty());
                assert(s.signature =~= Seq::<u8>::empty());
                assert(signed_fold(fs) == Some(s));
            }
        },
    }
}

proof fn lemma_key_fold_fails(init: KeyMessageView, fs: Seq<FieldView>, k: int)
    requires
        0 <= k <= fs.len(),
        key_fold(init, fs.take(k)) is None,
    ensures
        key_fold(init, fs) is None,
    decreases fs.len() - k,
{
    if k < fs.len() {
        assert(fs.take(k + 1).drop_last() =~= fs.take(k));
        lemma_key_fold_fails(init, fs, k + 1);
    } else {
        assert(fs.take(k) =~= fs);
    }
}

proof fn lemma_signed_fold_fails(fs: Seq<FieldView>, k: int)
    requires
        0 <= k <= fs.len(),
        signed_fold(fs.take(k)) is None,
    ensures
        signed_fold(fs) is None,
    decreases fs.len() - k,
{
    if k < fs.len() {
        assert(fs.take(k + 1).drop_last() =~= fs.take(k));
        lemma_signed_fold_fails(fs, k + 1);
    } else {
        assert(fs.take(k) =~= fs);
    }
}

impl KeyMessage {
    /// Appends the encoding of this key message.
    pub fn encode_to(&self, out: &mut Vec<u8>)
        ensures
            final(out)@ == old(out)@ + key_encoded(self@),
    {
        let ghost start = out@;
        let ghost a = FieldView { tag: 1, value: WireValue::Varint(self.key_type as u64) };
        let ghost b = FieldView { tag: 2, value: WireValue::Bytes(self.data@) };
        if self.key_type != 0 {
            write_varint_field(out, 1, self.key_type as u64);
        }
        if self.data.len() > 0 {
            write_bytes_field(out, 2, self.data.as_slice());
        }
        proof {
            lemma_two_fields(a, b);
            lemma_two_fields(b, a);
            let fs = key_fields(self@);
            if self.key_type != 0 && self.data.len() > 0 {
                assert(fs =~= seq![a, b]);
            } else if self.key_type != 0 {
                assert(fs =~= seq![a]);
            } else if self.data.len() > 0 {
                assert(fs =~= seq![b]);
            } else {
                assert(fs =~= Seq::<FieldView>::empty());
            }
            assert(out@ =~= start + fields_bytes(fs));
        }
    }

    /// Reads the fields of a key message into `self`, as a merge does.
    fn merge(&mut self, fields: &Vec<Field>) -> (ok: bool)
        ensures
            match key_fold(old(self)@, fields_view(fields@)) {
                None => !ok,
                Some(k) => ok && final(self)@ == k,
            },
    {
        let ghost init = self@;
        let ghost fs = fields_view(fields@);
        let mut i: usize = 0;
        while i < fields.len()
            invariant
                fs == fields_view(fields@),
                init == old(self)@,
                i <= fields@.len(),
                key_fold(init, fs.take(i as int)) == Some(self@),
            decreases fields@.len() - i,
        {
            proof {
                assert(fs.take(i + 1).drop_last() =~= fs.take(i as int));
                assert(fs.take(i + 1).last() == fields@[i as int]@);
            }
            let f = &fields[i];
            if f.tag == 1 {
                match &f.value {
                    FieldValue::Varint(v) => {
                        self.key_type = *v as i32;
                    },
                    _ => {
                        proof { lemma_key_fold_fails(init, fs, i + 1); }
                        return false;
                    },
                }
            } else if f.tag == 2 {
                match &f.value {
                    FieldValue::Bytes(b) => {
                        self.data = b.clone();
                    },
                    _ => {
                        proof { lemma_key_fold_fails(init, fs, i + 1); }
                        return false;
                    },
                }
            }
            i = i + 1;
        }
        assert(fs.take(fields@.len() as int) =~= fs);
        true
    }
}

use crate::proto::Field;

impl SignedKey {
    /// The signed key of a secp256k1 host key and its proof.
    pub fn new(host_pk: &[u8], cert_proof: &[u8]) -> (r: SignedKey)
        ensures
            r@ == (SignedKeyView {
                public_key: Some(KeyMessageView {
                    key_type: KeyType::Secp256k1.spec_code(),
                    data: host_pk@,
                }),
                signature: cert_proof@,
            }),
    {
        let pk = KeyMessage {
            key_type: KeyType::Secp256k1.code(),
            data: vstd::slice::slice_to_vec(host_pk),
        };
        SignedKey { public_key: Some(pk), signature: vstd::slice::slice_to_vec(cert_proof) }
    }

    /// The encoding of this signed key.
    pub fn encode(&self) -> (r: Vec<u8>)
        ensures
            r@ == signed_key_encoded(self@),
    {
        let mut out: Vec<u8> = Vec::new();
        let ghost sig = FieldView { tag: 2, value: WireValue::Bytes(self.signature@) };
        match &self.public_key {
            Some(k) => {
                let mut inner: Vec<u8> = Vec::new();
                k.encode_to(&mut inner);
                assert(inner@ =~= key_encoded(k@));
                write_bytes_field(&mut out, 1, inner.as_slice());
            },
            None => {},
        }
        if self.signature.len() > 0 {
            write_bytes_field(&mut out, 2, self.signature.as_slice());
        }
        proof {
            let fs = signed_fields(self@);
            match self@.public_key {
                Some(k) => {
                    let a = FieldView { tag: 1, value: WireValue::Bytes(key_encoded(k)) };
                    lemma_two_fields(a, sig);
                    if self.signature.len() > 0 {
                        assert(fs =~= seq![a, sig]);
                    } else {
                        assert(fs =~= seq![a]);
                    }
                },
                None => {
                    lemma_two_fields(sig, sig);
                    if self.signature.len() > 0 {
                        assert(fs =~= seq![sig]);
                    } else {
                        assert(fs =~= Seq::<FieldView>::empty());
                    }
                },
            }
            assert(out@ =~= fields_bytes(fs));
        }
        out
    }

    /// Reads a signed key from its encoding.
    pub fn decode(s: &[u8]) -> (r: Option<SignedKey>)
        ensures
            match signed_key_decoded(s@) {
                None => r is None,
                Some(k) => r matches Some(q) && q@ == k,
            },
    {
        let fields = match read_fields(s, RECURSION_LIMIT) {
            Some(f) => f,
            None => return None,
        };
        let ghost fs = fields_view(fields@);
        let mut acc = SignedKey { public_key: None, signature: Vec::new() };
        let mut i: usize = 0;
        while i < fields.len()
            invariant
                fs == fields_view(fields@),
                fields_of(s@, RECURSION_LIMIT as nat) == Some(fs),
                i <= fields@.len(),
                signed_fold(fs.take(i as int)) == Some(acc@),
            decreases fields@.len() - i,
        {
            proof {
                assert(fs.take(i + 1).drop_last() =~= fs.take(i as int));
                assert(fs.take(i + 1).last() == fields@[i as int]@);
            }
            let f = &fields[i];
            if f.tag == 1 {
                match &f.value {
                    FieldValue::Bytes(b) => {
                        let inner = match read_fields(b.as_slice(), RECURSION_LIMIT - 1) {
                            Some(v) => v,
                            None => {
                                proof { lemma_signed_fold_fails(fs, i + 1); }
                                return None;
                            },
                        };
                        let mut key = match acc.public_key {
                            Some(k) => k,
                            None => KeyMessage { key_type: 0, data: Vec::new() },
                        };
                        if !key.merge(&inner) {
                            proof { lemma_signed_fold_fails(fs, i + 1); }
                            return None;
                        }
                        acc.public_key = Some(key);
                    },
                    _ => {
                        proof { lemma_signed_fold_fails(fs, i + 1); }
                        return None;
                    },
                }
            } else if f.tag == 2 {
                match &f.value {
                    FieldValue::Bytes(b) => {
                        acc.signature = b.clone();
                    },
                    _ => {
                        proof { lemma_signed_fold_fails(fs, i + 1); }
                        return None;
                    },
                }
            }
            i = i + 1;
        }
        assert(fs.take(fields@.len() as int) =~= fs);
        Some(acc)
    }
}

// ---------------------------------------------------------------------------
// Errors.

/// A failure inside certificate handling that a peer's certificate cannot
/// cause by itself being wrong.
#[derive(Debug, PartialEq, Eq, Clone, Copy, Structural)]
pub enum InternalError {
    /// The salted certificate key does not fit the buffer it is hashed from.
    CertificatePublicKeyTooLarge { max: usize, real: usize },
    /// A key error other than a bad public key or signature.
    Crypto(CryptoError),
}

/// Why a peer certificate was refused.
#[derive(Debug)]
pub enum DerCertificateVerifyError {
    /// The certificate is not DER that the parser reads; the parser's report.
    ParseError(String),
    /// The extension content is not a well-formed signed key.
    SignedKeyDecodeError,
    /// The signed key names no host key.
    NoPeerPublicKey,
    /// The signed key names a host key that is not secp256k1.
    UnsupportedPeerPublicKeyType(i32),
    /// The host key does not parse.
    InvalidPeerPublicKey(CryptoError),
    /// The certificate has no libp2p extension.
    NoProof,
    /// The signature does not parse or does not verify.
    InvalidProof(CryptoError),
    /// Something that is not the peer's fault went wrong.
    UnexpectedError(InternalError),
}

/// Why a peer certificate was refused, as the logic reads it.
pub enum CertErrorView {
    ParseError(Seq<char>),
    SignedKeyDecodeError,
    NoPeerPublicKey,
    UnsupportedPeerPublicKeyType(i32),
    InvalidPeerPublicKey(CryptoError),
    NoProof,
    InvalidProof(CryptoError),
    UnexpectedError(InternalError),
}

impl View for DerCertificateVerifyError {
    type V = CertErrorView;

    open spec fn view(&self) -> CertErrorView {
        match self {
            DerCertificateVerifyError::ParseError(s) => CertErrorView::ParseError(s@),
            DerCertificateVerifyError::SignedKeyDecodeError => CertErrorView::SignedKeyDecodeError,
            DerCertificateVerifyError::NoPeerPublicKey => CertErrorView::NoPeerPublicKey,
            DerCertificateVerifyError::UnsupportedPeerPublicKeyType(t) => CertErrorView::UnsupportedPeerPublicKeyType(*t),
            DerCertificateVerifyError::InvalidPeerPublicKey(e) => CertErrorView::InvalidPeerPublicKey(*e),
            DerCertificateVerifyError::NoProof => CertErrorView::NoProof,
            DerCertificateVerifyError::InvalidProof(e) => CertErrorView::InvalidProof(*e),
            DerCertificateVerifyError::UnexpectedError(e) => CertErrorView::UnexpectedError(*e),
        }
    }
}

/// The certificate error a key error becomes.
pub open spec fn crypto_error_view(err: CryptoError) -> CertErrorView {
    match err {
        CryptoError::InvalidPublicKey => CertErrorView::InvalidPeerPublicKey(err),
        CryptoError::InvalidSignature => CertErrorView::InvalidProof(err),
        CryptoError::InvalidPrivateKey => CertErrorView::UnexpectedError(InternalError::Crypto(err)),
    }
}

impl From<CryptoError> for DerCertificateVerifyError {
    fn from(err: CryptoError) -> (r: DerCertificateVerifyError) {
        match err {
            CryptoError::InvalidPublicKey => DerCertificateVerifyError::InvalidPeerPublicKey(err),
            CryptoError::InvalidSignature => DerCertificateVerifyError::InvalidProof(err),
            CryptoError::InvalidPrivateKey => DerCertificateVerifyError::UnexpectedError(
                InternalError::Crypto(err),
            ),
        }
    }
}

impl vstd::std_specs::convert::FromSpecImpl<CryptoError> for DerCertificateVerifyError {
    open spec fn obeys_from_spec() -> bool {
        true
    }

    open spec fn from_spec(err: CryptoError) -> DerCertificateVerifyError {
        match err {
            CryptoError::InvalidPublicKey => DerCertificateVerifyError::InvalidPeerPublicKey(err),
            CryptoError::InvalidSignature => DerCertificateVerifyError::InvalidProof(err),
            CryptoError::InvalidPrivateKey => DerCertificateVerifyError::UnexpectedError(
                InternalError::Crypto(err),
            ),
        }
    }
}

impl From<InternalError> for DerCertificateVerifyError {
    fn from(err: InternalError) -> (r: DerCertificateVerifyError) {
        DerCertificateVerifyError::UnexpectedError(err)
    }
}

impl vstd::std_specs::convert::FromSpecImpl<InternalError> for DerCertificateVerifyError {
    open spec fn obeys_from_spec() -> bool {
        true
    }

    open spec fn from_spec(err: InternalError) -> DerCertificateVerifyError {
        DerCertificateVerifyError::UnexpectedError(err)
    }
}

impl DerCertificateVerifyError {
    /// The certificate error a key error becomes.
    pub fn from_crypto(err: CryptoError) -> (r: DerCertificateVerifyError)
        ensures
            r@ == crypto_error_view(err),
    {
        match err {
            CryptoError::InvalidPublicKey => DerCertificateVerifyError::InvalidPeerPublicKey(err),
            CryptoError::InvalidSignature => DerCertificateVerifyError::InvalidProof(err),
            CryptoError::InvalidPrivateKey => DerCertificateVerifyError::UnexpectedError(
                InternalError::Crypto(err),
            ),
        }
    }
}

// ---------------------------------------------------------------------------
// The proof that the host key signed the certificate key.

/// The bytes of `libp2p-tls-handshake`, the salt put before the certificate
/// key.
pub open spec fn cert_prefix() -> Seq<u8> {
    seq![108u8, 105, 98, 112, 50, 112, 45, 116, 108, 115, 45, 104, 97, 110, 100, 115, 104, 97, 107, 101]
}

fn cert_prefix_vec() -> (r: Vec<u8>)
    ensures
        r@ == cert_prefix(),
{
    vec![108u8, 105, 98, 112, 50, 112, 45, 116, 108, 115, 45, 104, 97, 110, 100, 115, 104, 97, 107, 101]
}

/// The size of the buffer the salted certificate key is hashed from.
pub const SALT_BUF_LEN: usize = 1000;

/// The salted certificate key.
pub open spec fn salted(cert_pk: Seq<u8>) -> Seq<u8> {
    cert_prefix() + cert_pk
}

/// The length a salted key is reported with when it does not fit: its true
/// length, or the largest `usize` when even that does not fit.
pub open spec fn salted_len(cert_pk: Seq<u8>) -> usize {
    if 20 + cert_pk.len() > usize::MAX {
        usize::MAX
    } else {
        (20 + cert_pk.len()) as usize
    }
}

/// Writes the salted certificate key at the start of `buf` and returns its
/// length; fails, leaving `buf` as it was, if it does not fit.
fn salt_cert_pubkey(cert_pk: &[u8], buf: &mut [u8]) -> (r: Result<usize, InternalError>)
    ensures
        final(buf)@.len() == old(buf)@.len(),
        20 + cert_pk@.len() > old(buf)@.len() ==> r == Err::<usize, InternalError>(
            InternalError::CertificatePublicKeyTooLarge {
                max: old(buf)@.len() as usize,
                real: salted_len(cert_pk@),
            },
        ) && final(buf)@ == old(buf)@,
        20 + cert_pk@.len() <= old(buf)@.len() ==> r == Ok::<usize, InternalError>(
            (20 + cert_pk@.len()) as usize,
        ) && final(buf)@.subrange(0, (20 + cert_pk@.len()) as int) == salted(cert_pk@)
            && final(buf)@.subrange((20 + cert_pk@.len()) as int, old(buf)@.len() as int) == old(buf)@.subrange(
            (20 + cert_pk@.len()) as int,
            old(buf)@.len() as int,
        ),
{
    let prefix = cert_prefix_vec();
    assert(prefix@.len() == 20);
    if cert_pk.len() > buf.len() || buf.len() - cert_pk.len() < prefix.len() {
        let total = prefix.len().saturating_add(cert_pk.len());
        return Err(InternalError::CertificatePublicKeyTooLarge { max: buf.len(), real: total });
    }
    let spk_len = prefix.len() + cert_pk.len();
    let mut i: usize = 0;
    while i < prefix.len()
        invariant
            prefix@ == cert_prefix(),
            spk_len == 20 + cert_pk@.len(),
            spk_len <= buf@.len(),
            buf@.len() == old(buf)@.len(),
            i <= 20,
            forall|j: int| 0 <= j < i ==> buf@[j] == prefix@[j],
            forall|j: int| spk_len <= j < buf@.len() ==> buf@[j] == old(buf)@[j],
        decreases 20 - i,
    {
        buf[i] = prefix[i];
        i = i + 1;
    }
    let mut k: usize = 0;
    while k < cert_pk.len()
        invariant
            prefix@ == cert_prefix(),
            spk_len == 20 + cert_pk@.len(),
            spk_len <= buf@.len(),
            buf@.len() == old(buf)@.len(),
            k <= cert_pk@.len(),
            forall|j: int| 0 <= j < 20 ==> buf@[j] == prefix@[j],
            forall|j: int| 0 <= j < k ==> buf@[20 + j] == cert_pk@[j],
            forall|j: int| spk_len <= j < buf@.len() ==> buf@[j] == old(buf)@[j],
        decreases cert_pk@.len() - k,
    {
        buf[20 + k] = cert_pk[k];
        k = k + 1;
    }
    assert(buf@.subrange(0, spk_len as int) =~= salted(cert_pk@));
    assert(buf@.subrange(spk_len as int, buf@.len() as int) =~= old(buf)@.subrange(spk_len as int, old(buf)@.len() as int));
    Ok(spk_len)
}

/// The host's signature of the salted certificate key; fails if the salted
/// key does not fit the hashing buffer.
fn gen_proof(cert_pubkey: &[u8], host_privkey: &PrivateKey) -> (r: Result<Signature, InternalError>)
    ensures
        r is Ok <==> 20 + cert_pubkey@.len() <= SALT_BUF_LEN,
        r matches Ok(s) ==> s@ == secp256k1_sign(host_privkey@, keccak256_digest(salted(cert_pubkey@)))
            && secp256k1_verifies(
            keccak256_digest(salted(cert_pubkey@)),
            s@,
            crate::crypto::secp256k1_public_of(host_privkey@),
        ) && secp256k1_signature_parsed(s@) == Some(s@) && s@.len() == 64,
        r matches Err(e) ==> e == (InternalError::CertificatePublicKeyTooLarge {
            max: SALT_BUF_LEN,
            real: salted_len(cert_pubkey@),
        }),
{
    let mut buf: Vec<u8> = vec![0u8; SALT_BUF_LEN];
    let len = match salt_cert_pubkey(cert_pubkey, buf.as_mut_slice()) {
        Ok(n) => n,
        Err(e) => return Err(e),
    };
    let salted_pk = vstd::slice::slice_subrange(buf.as_slice(), 0, len);
    let msg = keccak256_hash(salted_pk);
    match host_privkey.sign(&msg) {
        Ok(sig) => Ok(sig),
        Err(e) => Err(InternalError::Crypto(e)),
    }
}

/// Whether `proof` is the host key's signature of the salted certificate key.
pub open spec fn spec_verify_proof(proof: Seq<u8>, cert_pk: Seq<u8>, host_pk: Seq<u8>) -> Result<(), CertErrorView> {
    if 20 + cert_pk.len() > SALT_BUF_LEN {
        Err(CertErrorView::UnexpectedError(InternalError::CertificatePublicKeyTooLarge {
            max: SALT_BUF_LEN,
            real: salted_len(cert_pk),
        }))
    } else if secp256k1_verifies(keccak256_digest(salted(cert_pk)), proof, host_pk) {
        Ok(())
    } else {
        Err(CertErrorView::InvalidProof(CryptoError::InvalidSignature))
    }
}

/// Checks that `proof` is the host key's signature of the salted
/// certificate key.
fn verify_proof(proof: &Signature, cert_pubkey: &[u8], host_pubkey: &PublicKey) -> (r: Result<(), DerCertificateVerifyError>)
    ensures
        match spec_verify_proof(proof@, cert_pubkey@, host_pubkey@) {
            Ok(()) => r is Ok,
            Err(e) => r matches Err(re) && re@ == e,
        },
{
    let mut buf: Vec<u8> = vec![0u8; SALT_BUF_LEN];
    let len = match salt_cert_pubkey(cert_pubkey, buf.as_mut_slice()) {
        Ok(n) => n,
        Err(e) => return Err(DerCertificateVerifyError::UnexpectedError(e)),
    };
    let salted_pk = vstd::slice::slice_subrange(buf.as_slice(), 0, len);
    let msg = keccak256_hash(salted_pk);
    match host_pubkey.verify(&msg, proof) {
        Ok(()) => Ok(()),
        Err(e) => Err(DerCertificateVerifyError::from_crypto(e)),
    }
}

// ---------------------------------------------------------------------------
// The extension.

/// The object identifier of the certificate extension that carries the host key.
pub open spec fn p2p_ext_oid() -> Seq<u64> {
    seq![1u64, 3, 6, 1, 4, 1, 53594, 1, 1]
}

fn p2p_ext_oid_vec() -> (r: Vec<u64>)
    ensures
        r@ == p2p_ext_oid(),
{
    vec![1u64, 3, 6, 1, 4, 1, 53594, 1, 1]
}

/// Matching of an extension's object identifier against the libp2p one.
pub struct P2POid;

impl P2POid {
    /// Whether `oid` agrees with the libp2p identifier on every position that
    /// both have (the shorter one is a prefix of the longer one).
    pub open spec fn spec_matched(oid: Seq<u64>) -> bool {
        forall|i: int| 0 <= i < oid.len() && i < p2p_ext_oid().len() ==> oid[i] == p2p_ext_oid()[i]
    }

    /// Whether `oid` agrees with the libp2p identifier on every position that
    /// both have.
    pub fn matched(oid: &[u64]) -> (r: bool)
        ensures
            r == P2POid::spec_matched(oid@),
    {
        let target = p2p_ext_oid_vec();
        let mut i: usize = 0;
        while i < oid.len() && i < target.len()
            invariant
                target@ == p2p_ext_oid(),
                i <= oid@.len(),
                i <= target@.len(),
                forall|j: int| 0 <= j < i ==> oid@[j] == p2p_ext_oid()[j],
            decreases oid@.len() - i,
        {
            if oid[i] != target[i] {
                return false;
            }
            i = i + 1;
        }
        true
    }
}

// ---------------------------------------------------------------------------
// Reading a peer certificate.

#[verifier::external_type_specification]
#[verifier::external_body]
pub struct ExRcgenKeyPair(rcgen::KeyPair);

#[verifier::external_type_specification]
#[verifier::external_body]
pub struct ExRcgenCertificate(rcgen::Certificate);

#[verifier::external_type_specification]
#[verifier::external_body]
pub struct ExRcgenError(rcgen::RcgenError);

#[verifier::external_type_specification]
#[verifier::external_body]
pub struct ExRcgenParams(rcgen::CertificateParams);

#[verifier::external_type_specification]
#[verifier::external_body]
pub struct ExRcgenAlgorithm(rcgen::SignatureAlgorithm);

/// A parsed certificate: its subject public key and its extensions, each
/// an object identifier and a value.
pub type ParsedCert = (Vec<u8>, Vec<(Vec<u64>, Vec<u8>)>);

/// What `x509_parser::parse_x509_der` gives for some bytes: on success the
/// subject public key bits and the extensions (identifier, value) in the
/// order the certificate lists them; on failure the debug text of its error.
pub uninterp spec fn x509_parsed(der: Seq<u8>) -> Result<(Seq<u8>, Seq<(Seq<u64>, Seq<u8>)>), Seq<char>>;

/// The view of a parser result.
pub open spec fn parsed_view(r: Result<ParsedCert, String>) -> Result<(Seq<u8>, Seq<(Seq<u64>, Seq<u8>)>), Seq<char>> {
    match r {
        Ok((k, exts)) => Ok((k@, exts@.map_values(|e: (Vec<u64>, Vec<u8>)| (e.0@, e.1@)))),
        Err(s) => Err(s@),
    }
}

/// `x509_parser::parse_x509_der`: the certificate's subject public key bits
/// and its extensions, or the debug text of the parser's error.
#[verifier::external_body]
fn x509_parse_der(der: &[u8]) -> (r: Result<ParsedCert, String>)
    ensures
        parsed_view(r) == x509_parsed(der@),
{
    match x509_parser::parse_x509_der(der) {
        Ok((_, cert)) => {
            let tbs = cert.tbs_certificate;
            let exts = tbs.extensions.iter().map(|e| (e.oid.iter().cloned().collect(), e.value.to_vec()));
            Ok((tbs.subject_pki.subject_public_key.data.to_vec(), exts.collect()))
        },
        Err(err) => Err(format!("{:?}", err)),
    }
}

/// The value of the first extension whose identifier matches the libp2p one.
pub open spec fn first_p2p_ext(exts: Seq<(Seq<u64>, Seq<u8>)>) -> Option<Seq<u8>>
    decreases exts.len(),
{
    if exts.len() == 0 {
        None
    } else if P2POid::spec_matched(exts[0].0) {
        Some(exts[0].1)
    } else {
        first_p2p_ext(exts.drop_first())
    }
}

/// The certificate key and the libp2p extension of a parsed certificate.
pub open spec fn spec_cert_p2p_ext(parsed: Result<(Seq<u8>, Seq<(Seq<u64>, Seq<u8>)>), Seq<char>>) -> Result<(Seq<u8>, Seq<u8>), CertErrorView> {
    match parsed {
        Err(s) => Err(CertErrorView::ParseError(s)),
        Ok((k, exts)) => match first_p2p_ext(exts) {
            Some(v) => Ok((k, v)),
            None => Err(CertErrorView::NoProof),
        },
    }
}

/// The certificate key and the value of the first libp2p extension of a
/// parsed certificate; fails with the parser's report, or with `NoProof`.
pub fn select_p2p_ext(parsed: Result<ParsedCert, String>) -> (r: Result<(Vec<u8>, Vec<u8>), DerCertificateVerifyError>)
    ensures
        match spec_cert_p2p_ext(parsed_view(parsed)) {
            Ok((k, v)) => r matches Ok((rk, rv)) && rk@ == k && rv@ == v,
            Err(e) => r matches Err(re) && re@ == e,
        },
{
    let (cert_key, exts) = match parsed {
        Ok(p) => p,
        Err(s) => return Err(DerCertificateVerifyError::ParseError(s)),
    };
    let ghost ev = exts@.map_values(|e: (Vec<u64>, Vec<u8>)| (e.0@, e.1@));
    let mut i: usize = 0;
    assert(ev.skip(0) =~= ev);
    while i < exts.len()
        invariant
            ev == exts@.map_values(|e: (Vec<u64>, Vec<u8>)| (e.0@, e.1@)),
            parsed_view(parsed) == Ok::<(Seq<u8>, Seq<(Seq<u64>, Seq<u8>)>), Seq<char>>((cert_key@, ev)),
            i <= exts@.len(),
            first_p2p_ext(ev) == first_p2p_ext(ev.skip(i as int)),
        decreases exts@.len() - i,
    {
        assert(ev.skip(i as int)[0] == ev[i as int]);
        assert(ev.skip(i as int).drop_first() =~= ev.skip(i + 1));
        if P2POid::matched(exts[i].0.as_slice()) {
            let value = exts[i].1.clone();
            return Ok((cert_key, value));
        }
        i = i + 1;
    }
    assert(ev.skip(i as int) =~= Seq::<(Seq<u64>, Seq<u8>)>::empty());
    Err(DerCertificateVerifyError::NoProof)
}

/// The signature and host key of a libp2p extension value.
pub open spec fn spec_decode_ext(value: Seq<u8>) -> Result<(Seq<u8>, Seq<u8>), CertErrorView> {
    match signed_key_decoded(value) {
        None => Err(CertErrorView::SignedKeyDecodeError),
        Some(k) => match k.public_key {
            None => Err(CertErrorView::NoPeerPublicKey),
            Some(pk) => if pk.key_type != KeyType::Secp256k1.spec_code() {
                Err(CertErrorView::UnsupportedPeerPublicKeyType(pk.key_type))
            } else if !secp256k1_public_valid(pk.data) {
                Err(CertErrorView::InvalidPeerPublicKey(CryptoError::InvalidPublicKey))
            } else if !secp256k1_signature_valid(k.signature) {
                Err(CertErrorView::InvalidProof(CryptoError::InvalidSignature))
            } else {
                Ok((secp256k1_signature_parsed(k.signature).unwrap(), secp256k1_public_parsed(pk.data).unwrap()))
            },
        },
    }
}

/// The signature and host key of a libp2p extension value: fails if the
/// value is no signed key, names no key or a key that is not secp256k1, or
/// if the key or the signature does not parse.
fn decode_p2p_ext(value: &[u8]) -> (r: Result<(Signature, PublicKey), DerCertificateVerifyError>)
    ensures
        match spec_decode_ext(value@) {
            Ok((sig, pk)) => r matches Ok((rs, rk)) && rs@ == sig && rk@ == pk,
            Err(e) => r matches Err(re) && re@ == e,
        },
{
    let signed_key = match SignedKey::decode(value) {
        Some(k) => k,
        None => return Err(DerCertificateVerifyError::SignedKeyDecodeError),
    };
    let pubkey_in_ext = match signed_key.public_key {
        Some(k) => k,
        None => return Err(DerCertificateVerifyError::NoPeerPublicKey),
    };
    if pubkey_in_ext.key_type != KeyType::Secp256k1.code() {
        return Err(DerCertificateVerifyError::UnsupportedPeerPublicKeyType(pubkey_in_ext.key_type));
    }
    let peer_pubkey = match PublicKey::from_slice(pubkey_in_ext.data.as_slice()) {
        Ok(k) => k,
        Err(e) => return Err(DerCertificateVerifyError::from_crypto(e)),
    };
    let sig = match Signature::from_slice(signed_key.signature.as_slice()) {
        Ok(s) => s,
        Err(e) => return Err(DerCertificateVerifyError::from_crypto(e)),
    };
    Ok((sig, peer_pubkey))
}

/// The verdict on a parsed peer certificate.
pub open spec fn spec_cert_verdict(parsed: Result<(Seq<u8>, Seq<(Seq<u64>, Seq<u8>)>), Seq<char>>) -> Result<(), CertErrorView> {
    match spec_cert_p2p_ext(parsed) {
        Err(e) => Err(e),
        Ok((cert_pk, value)) => match spec_decode_ext(value) {
            Err(e) => Err(e),
            Ok((sig, host_pk)) => spec_verify_proof(sig, cert_pk, host_pk),
        },
    }
}

/// The host key a parsed peer certificate names.
pub open spec fn spec_cert_peer_key(parsed: Result<(Seq<u8>, Seq<(Seq<u64>, Seq<u8>)>), Seq<char>>) -> Result<Seq<u8>, CertErrorView> {
    match spec_cert_p2p_ext(parsed) {
        Err(e) => Err(e),
        Ok((cert_pk, value)) => match spec_decode_ext(value) {
            Err(e) => Err(e),
            Ok((sig, host_pk)) => Ok(host_pk),
        },
    }
}

// ---------------------------------------------------------------------------
// Making the host's certificate.

/// Whether a certificate may sign other certificates.
pub enum CaMode {
    /// The certificate signs only itself.
    SelfSignedOnly,
    /// The certificate may sign others, with no limit on the chain below it.
    Ca,
}

/// Whether an object identifier goes through `rcgen`'s DER writer and back
/// through the certificate parser unchanged: at least two arcs, the first
/// below 3 and the second below 40, so that the first two share one byte.
/// (The writer panics on fewer arcs or a larger first arc; with first arc 2
/// it also writes a second arc of 40 or more, which the parser then reads as
/// different arcs.)
pub open spec fn oid_round_trips(oid: Seq<u64>) -> bool {
    &&& oid.len() >= 2
    &&& oid[0] < 3
    &&& oid[1] < 40
}

/// The PKCS#8 key document an `rcgen::KeyPair` holds.
pub uninterp spec fn rcgen_key_pair_der(kp: rcgen::KeyPair) -> Seq<u8>;

/// The raw public key of a PKCS#8 key document.
pub uninterp spec fn pkcs8_public_key(der: Seq<u8>) -> Seq<u8>;

/// The DNS names among the subject alternative names of a parameter set.
pub uninterp spec fn rcgen_params_dns_names(p: rcgen::CertificateParams) -> Seq<Seq<char>>;

/// The custom extensions (identifier, content) of a parameter set, in order.
pub uninterp spec fn rcgen_params_extensions(p: rcgen::CertificateParams) -> Seq<(Seq<u64>, Seq<u8>)>;

/// The PKCS#8 document of the key pair a parameter set carries, if any.
pub uninterp spec fn rcgen_params_key(p: rcgen::CertificateParams) -> Option<Seq<u8>>;

/// The DNS names among the subject alternative names of a certificate.
pub uninterp spec fn rcgen_cert_dns_names(c: rcgen::Certificate) -> Seq<Seq<char>>;

/// The custom extensions (identifier, content) of a certificate, in order.
pub uninterp spec fn rcgen_cert_extensions(c: rcgen::Certificate) -> Seq<(Seq<u64>, Seq<u8>)>;

/// The PKCS#8 document of a certificate's key pair.
pub uninterp spec fn rcgen_cert_key(c: rcgen::Certificate) -> Seq<u8>;

/// What the certificate parser reads from a certificate that `rcgen` wrote
/// with subject key `key` and custom extensions `custom`: that key, then the
/// extensions `rcgen` adds itself (alternative names, key usages, CA
/// constraints, all under the arc 2), then the custom ones in order.
pub open spec fn reads_as_written(
    parsed: Result<(Seq<u8>, Seq<(Seq<u64>, Seq<u8>)>), Seq<char>>,
    key: Seq<u8>,
    custom: Seq<(Seq<u64>, Seq<u8>)>,
) -> bool {
    &&& parsed matches Ok((k, exts))
    &&& k == key
    &&& exists|n: int|
        #![trigger exts.skip(n)]
        0 <= n <= exts.len() && exts.skip(n) == custom && forall|j: int|
            0 <= j < n ==> (#[trigger] exts[j]).0.len() > 0 && exts[j].0[0] == 2
}

/// `rcgen::PKCS_ECDSA_P384_SHA384`.
#[verifier::external_body]
fn rcgen_ecdsa_p384_sha384() -> (r: &'static rcgen::SignatureAlgorithm) {
    &rcgen::PKCS_ECDSA_P384_SHA384
}

/// `rcgen::KeyPair::generate`: a fresh random key pair for the algorithm.
#[verifier::external_body]
fn rcgen_generate_key_pair(alg: &'static rcgen::SignatureAlgorithm) -> (r: Result<rcgen::KeyPair, rcgen::RcgenError>) {
    rcgen::KeyPair::generate(alg)
}

/// `rcgen::KeyPair::public_key_raw`: the raw public key of the pair, which
/// its PKCS#8 document determines.
#[verifier::external_body]
fn rcgen_public_key_raw(key_pair: &rcgen::KeyPair) -> (r: Vec<u8>)
    ensures
        r@ == pkcs8_public_key(rcgen_key_pair_der(*key_pair)),
{
    key_pair.public_key_raw().to_vec()
}

/// `rcgen::CertificateParams::default`: no alternative names, no custom
/// extensions and no key pair.
#[verifier::external_body]
fn rcgen_params_default() -> (r: rcgen::CertificateParams)
    ensures
        rcgen_params_dns_names(r) == Seq::<Seq<char>>::empty(),
        rcgen_params_extensions(r) == Seq::<(Seq<u64>, Seq<u8>)>::empty(),
        rcgen_params_key(r) is None,
{
    rcgen::CertificateParams::default()
}

/// Sets `subject_alt_names` to the DNS names given.
#[verifier::external_body]
fn rcgen_set_dns_names(params: &mut rcgen::CertificateParams, names: Vec<String>)
    ensures
        rcgen_params_dns_names(*final(params)) == names@.map_values(|s: String| s@),
        rcgen_params_extensions(*final(params)) == rcgen_params_extensions(*old(params)),
        rcgen_params_key(*final(params)) == rcgen_params_key(*old(params)),
{
    params.subject_alt_names = names.into_iter().map(rcgen::SanType::DnsName).collect();
}

/// Sets `custom_extensions`, each made by `CustomExtension::from_oid_content`
/// (not critical).
#[verifier::external_body]
fn rcgen_set_custom_extensions(params: &mut rcgen::CertificateParams, exts: Vec<(Vec<u64>, Vec<u8>)>)
    ensures
        rcgen_params_extensions(*final(params)) == exts@.map_values(|e: (Vec<u64>, Vec<u8>)| (e.0@, e.1@)),
        rcgen_params_dns_names(*final(params)) == rcgen_params_dns_names(*old(params)),
        rcgen_params_key(*final(params)) == rcgen_params_key(*old(params)),
{
    params.custom_extensions = exts.into_iter().map(|(oid, content)| rcgen::CustomExtension::from_oid_content(&oid, content)).collect();
}

/// Sets `is_ca`.
#[verifier::external_body]
fn rcgen_set_is_ca(params: &mut rcgen::CertificateParams, mode: CaMode)
    ensures
        rcgen_params_dns_names(*final(params)) == rcgen_params_dns_names(*old(params)),
        rcgen_params_extensions(*final(params)) == rcgen_params_extensions(*old(params)),
        rcgen_params_key(*final(params)) == rcgen_params_key(*old(params)),
{
    params.is_ca = match mode {
        CaMode::SelfSignedOnly => rcgen::IsCa::SelfSignedOnly,
        CaMode::Ca => rcgen::IsCa::Ca(rcgen::BasicConstraints::Unconstrained),
    };
}

/// Sets `alg`, the signature algorithm.
#[verifier::external_body]
fn rcgen_set_alg(params: &mut rcgen::CertificateParams, alg: &'static rcgen::SignatureAlgorithm)
    ensures
        rcgen_params_dns_names(*final(params)) == rcgen_params_dns_names(*old(params)),
        rcgen_params_extensions(*final(params)) == rcgen_params_extensions(*old(params)),
        rcgen_params_key(*final(params)) == rcgen_params_key(*old(params)),
{
    params.alg = alg;
}

/// Sets `key_pair`.
#[verifier::external_body]
fn rcgen_set_key_pair(params: &mut rcgen::CertificateParams, key_pair: rcgen::KeyPair)
    ensures
        rcgen_params_key(*final(params)) == Some(rcgen_key_pair_der(key_pair)),
        rcgen_params_dns_names(*final(params)) == rcgen_params_dns_names(*old(params)),
        rcgen_params_extensions(*final(params)) == rcgen_params_extensions(*old(params)),
{
    params.key_pair = Some(key_pair);
}

/// `rcgen::Certificate::from_params`: a certificate that keeps the
/// parameters and their key pair (a fresh one when they carry none); fails
/// when the key pair does not suit the algorithm.
#[verifier::external_body]
fn rcgen_from_params(params: rcgen::CertificateParams) -> (r: Result<rcgen::Certificate, rcgen::RcgenError>)
    ensures
        r matches Ok(c) ==> rcgen_cert_dns_names(c) == rcgen_params_dns_names(params)
            && rcgen_cert_extensions(c) == rcgen_params_extensions(params)
            && (rcgen_params_key(params) matches Some(k) ==> rcgen_cert_key(c) == k),
{
    rcgen::Certificate::from_params(params)
}

/// `rcgen::Certificate::serialize_der`: the certificate, signed with a fresh
/// random signature, in DER; on success the certificate parser reads back
/// its key and its custom extensions after the ones `rcgen` adds itself.
/// The writer panics on an identifier it cannot encode, and writes some
/// others in a form the parser reads differently; `requires` rules out both.
#[verifier::external_body]
fn rcgen_serialize_der(cert: &rcgen::Certificate) -> (r: Result<Vec<u8>, rcgen::RcgenError>)
    requires
        forall|i: int|
            0 <= i < rcgen_cert_extensions(*cert).len() ==> oid_round_trips(#[trigger] rcgen_cert_extensions(*cert)[i].0),
    ensures
        r matches Ok(der) ==> reads_as_written(
            x509_parsed(der@),
            pkcs8_public_key(rcgen_cert_key(*cert)),
            rcgen_cert_extensions(*cert),
        ),
{
    cert.serialize_der()
}

/// `rcgen::Certificate::serialize_private_key_der`: the PKCS#8 document of
/// the certificate's key pair.
#[verifier::external_body]
fn rcgen_serialize_private_key_der(cert: &rcgen::Certificate) -> (r: Vec<u8>)
    ensures
        r@ == rcgen_cert_key(*cert),
{
    cert.serialize_private_key_der()
}

/// The content of the libp2p extension for a host key and its proof.
pub open spec fn p2p_ext_content(host_pk: Seq<u8>, proof: Seq<u8>) -> Seq<u8> {
    signed_key_encoded(
        SignedKeyView {
            public_key: Some(KeyMessageView { key_type: KeyType::Secp256k1.spec_code(), data: host_pk }),
            signature: proof,
        },
    )
}

/// With no extension before it that matches the libp2p identifier, the first
/// matching extension is found among the rest.
proof fn lemma_first_p2p_ext_skip(exts: Seq<(Seq<u64>, Seq<u8>)>, n: int)
    requires
        0 <= n <= exts.len(),
        forall|j: int| 0 <= j < n ==> (#[trigger] exts[j]).0.len() > 0 && exts[j].0[0] == 2,
    ensures
        first_p2p_ext(exts) == first_p2p_ext(exts.skip(n)),
    decreases n,
{
    if n > 0 {
        assert(exts[0].0[0] != p2p_ext_oid()[0]);
        assert(!P2POid::spec_matched(exts[0].0));
        let rest = exts.drop_first();
        assert forall|j: int| 0 <= j < n - 1 implies (#[trigger] rest[j]).0.len() > 0 && rest[j].0[0] == 2 by {
            assert(rest[j] == exts[j + 1]);
        }
        lemma_first_p2p_ext_skip(rest, n - 1);
        assert(rest.skip(n - 1) =~= exts.skip(n));
    } else {
        assert(exts.skip(0) =~= exts);
    }
}

/// The host's certificate: a self-signed certificate that carries the
/// libp2p extension.
pub struct P2PSelfSignedCertificate {
    cert_pubkey: Vec<u8>,
    p2p_ext: Vec<u8>,
    der_cert: rcgen::Certificate,
}

/// Why making the host's certificate failed.
pub enum CertificateError {
    /// The certificate library failed.
    Rcgen(rcgen::RcgenError),
    /// The certificate key is too large to be signed.
    Internal(InternalError),
}

impl P2PSelfSignedCertificate {
    /// The copies the certificate keeps of its key and its extension are the
    /// ones inside it, and the libp2p extension is its only custom one.
    #[verifier::type_invariant]
    closed spec fn wf(self) -> bool {
        &&& self.cert_pubkey@ == pkcs8_public_key(rcgen_cert_key(self.der_cert))
        &&& rcgen_cert_extensions(self.der_cert) == seq![(p2p_ext_oid(), self.p2p_ext@)]
    }

    /// The certificate's own public key.
    pub closed spec fn cert_key(&self) -> Seq<u8> {
        self.cert_pubkey@
    }

    /// The content of the certificate's libp2p extension.
    pub closed spec fn ext_content(&self) -> Seq<u8> {
        self.p2p_ext@
    }

    /// The DNS names the certificate is issued for.
    pub closed spec fn dns_names(&self) -> Seq<Seq<char>> {
        rcgen_cert_dns_names(self.der_cert)
    }

    /// The PKCS#8 document of the certificate's key pair.
    pub closed spec fn private_key_der(&self) -> Seq<u8> {
        rcgen_cert_key(self.der_cert)
    }

    /// The certificate was made for the host key pair `(host_sk, host_pk)`:
    /// its extension carries `host_pk` and the signature by `host_sk` of the
    /// salted certificate key, and its DNS name is the text of `host_pk`'s
    /// peer identity.
    pub open spec fn issued_for(&self, host_sk: Seq<u8>, host_pk: Seq<u8>) -> bool {
        let digest = keccak256_digest(salted(self.cert_key()));
        let proof = secp256k1_sign(host_sk, digest);
        &&& 20 + self.cert_key().len() <= SALT_BUF_LEN
        &&& self.ext_content() == p2p_ext_content(host_pk, proof)
        &&& self.dns_names() == seq![bs58_text(peer_id_of(host_pk))]
        &&& secp256k1_signature_parsed(proof) == Some(proof)
        &&& proof.len() == 64
        &&& secp256k1_verifies(digest, proof, secp256k1_public_of(host_sk))
    }

    /// `der` is a DER form of this certificate: the certificate parser reads
    /// from it this certificate's key, and the first libp2p extension it
    /// finds is this certificate's.
    pub open spec fn serialized_as(&self, der: Seq<u8>) -> bool {
        &&& x509_parsed(der) matches Ok((k, exts))
        &&& k == self.cert_key()
        &&& first_p2p_ext(exts) == Some(self.ext_content())
    }

    /// A fresh self-signed certificate for the host: a new random ECDSA
    /// P-384 certificate key, whose salted hash the host key signs; the
    /// extension carries the host's public key and that signature, and the
    /// peer identity's text is the certificate's DNS name. Key generation and
    /// certificate assembly are left to `rcgen`, which may fail.
    pub fn from_host(host_privkey: &PrivateKey, host_pubkey: &PublicKey) -> (r: Result<P2PSelfSignedCertificate, CertificateError>)
        ensures
            r matches Ok(c) ==> c.issued_for(host_privkey@, host_pubkey@),
            r matches Err(CertificateError::Internal(e)) ==> e is CertificatePublicKeyTooLarge,
    {
        let alg = rcgen_ecdsa_p384_sha384();
        let cert_keypair = match rcgen_generate_key_pair(alg) {
            Ok(k) => k,
            Err(e) => return Err(CertificateError::Rcgen(e)),
        };
        let cert_pubkey = rcgen_public_key_raw(&cert_keypair);
        let cert_proof = match gen_proof(cert_pubkey.as_slice(), host_privkey) {
            Ok(s) => s,
            Err(e) => return Err(CertificateError::Internal(e)),
        };
        let proof_bytes = cert_proof.to_bytes();
        let signed_key = SignedKey::new(host_pubkey.as_slice(), proof_bytes.as_slice());
        let encoded_key = signed_key.encode();
        let peer_id = host_pubkey.peer_id();
        let mut dns_names: Vec<String> = Vec::new();
        dns_names.push(peer_id.string());
        let mut exts: Vec<(Vec<u64>, Vec<u8>)> = Vec::new();
        exts.push((p2p_ext_oid_vec(), encoded_key.clone()));
        let mut params = rcgen_params_default();
        rcgen_set_dns_names(&mut params, dns_names);
        rcgen_set_custom_extensions(&mut params, exts);
        rcgen_set_is_ca(&mut params, CaMode::SelfSignedOnly);
        rcgen_set_alg(&mut params, alg);
        rcgen_set_key_pair(&mut params, cert_keypair);
        proof {
            assert(rcgen_params_dns_names(params) =~= seq![bs58_text(peer_id_of(host_pubkey@))]);
            assert(rcgen_params_extensions(params) =~= seq![(p2p_ext_oid(), encoded_key@)]);
        }
        let der_cert = match rcgen_from_params(params) {
            Ok(c) => c,
            Err(e) => return Err(CertificateError::Rcgen(e)),
        };
        Ok(P2PSelfSignedCertificate { cert_pubkey, p2p_ext: encoded_key, der_cert })
    }

    /// The certificate's own public key.
    pub fn cert_pubkey(&self) -> (r: Vec<u8>)
        ensures
            r@ == self.cert_key(),
    {
        self.cert_pubkey.clone()
    }

    /// The content of the certificate's libp2p extension.
    pub fn p2p_ext(&self) -> (r: Vec<u8>)
        ensures
            r@ == self.ext_content(),
    {
        self.p2p_ext.clone()
    }

    /// The certificate, signed by its own key, in DER. The signature is
    /// random and `rcgen` may fail; what it writes reads back as this
    /// certificate.
    pub fn serialize_der(&self) -> (r: Result<Vec<u8>, rcgen::RcgenError>)
        ensures
            r matches Ok(der) ==> self.serialized_as(der@),
    {
        proof { use_type_invariant(self); }
        let r = rcgen_serialize_der(&self.der_cert);
        proof {
            if r is Ok {
                let der = r->Ok_0;
                let (k, exts) = x509_parsed(der@)->Ok_0;
                let n = choose|n: int|
                    #![trigger exts.skip(n)]
                    0 <= n <= exts.len() && exts.skip(n) == rcgen_cert_extensions(self.der_cert) && forall|j: int|
                        0 <= j < n ==> (#[trigger] exts[j]).0.len() > 0 && exts[j].0[0] == 2;
                lemma_first_p2p_ext_skip(exts, n);
                let one = exts.skip(n);
                assert(one.len() == 1 && one[0] == (p2p_ext_oid(), self.p2p_ext@));
                assert(P2POid::spec_matched(one[0].0));
            }
        }
        r
    }

    /// The certificate's key pair in PKCS#8 DER: the key whose public key is
    /// the certificate's.
    pub fn serialize_private_key_der(&self) -> (r: Vec<u8>)
        ensures
            r@ == self.private_key_der(),
            pkcs8_public_key(r@) == self.cert_key(),
    {
        proof { use_type_invariant(self); }
        rcgen_serialize_private_key_der(&self.der_cert)
    }

    /// Checks a parsed peer certificate: it must carry the libp2p extension,
    /// the extension a secp256k1 host key and a signature, and the signature
    /// must be the host key's signature of the salted certificate key.
    pub fn verify_parsed(parsed: Result<ParsedCert, String>) -> (r: Result<(), DerCertificateVerifyError>)
        ensures
            match spec_cert_verdict(parsed_view(parsed)) {
                Ok(()) => r is Ok,
                Err(e) => r matches Err(re) && re@ == e,
            },
    {
        let (cert_pubkey, p2p_ext) = match select_p2p_ext(parsed) {
            Ok(p) => p,
            Err(e) => return Err(e),
        };
        let (sig, peer_pubkey) = match decode_p2p_ext(p2p_ext.as_slice()) {
            Ok(p) => p,
            Err(e) => return Err(e),
        };
        verify_proof(&sig, cert_pubkey.as_slice(), &peer_pubkey)
    }

    /// Checks a DER peer certificate, as `verify_parsed` does on what the
    /// certificate parser reads from it.
    pub fn verify_cert_ext(der_cert_data: &[u8]) -> (r: Result<(), DerCertificateVerifyError>)
        ensures
            match spec_cert_verdict(x509_parsed(der_cert_data@)) {
                Ok(()) => r is Ok,
                Err(e) => r matches Err(re) && re@ == e,
            },
    {
        Self::verify_parsed(x509_parse_der(der_cert_data))
    }

    /// The host key that a parsed peer certificate names, without checking
    /// its signature.
    pub fn peer_pubkey_of_parsed(parsed: Result<ParsedCert, String>) -> (r: Result<PublicKey, DerCertificateVerifyError>)
        ensures
            match spec_cert_peer_key(parsed_view(parsed)) {
                Ok(k) => r matches Ok(rk) && rk@ == k,
                Err(e) => r matches Err(re) && re@ == e,
            },
    {
        let (_, p2p_ext) = match select_p2p_ext(parsed) {
            Ok(p) => p,
            Err(e) => return Err(e),
        };
        match decode_p2p_ext(p2p_ext.as_slice()) {
            Ok((_, peer_pubkey)) => Ok(peer_pubkey),
            Err(e) => Err(e),
        }
    }

    /// The host key that a DER peer certificate names, as
    /// `peer_pubkey_of_parsed` reads it.
    pub fn recover_peer_pubkey(der_cert_data: &[u8]) -> (r: Result<PublicKey, DerCertificateVerifyError>)
        ensures
            match spec_cert_peer_key(x509_parsed(der_cert_data@)) {
                Ok(k) => r matches Ok(rk) && rk@ == k,
                Err(e) => r matches Err(re) && re@ == e,
            },
    {
        Self::peer_pubkey_of_parsed(x509_parse_der(der_cert_data))
    }
}

/// A certificate whose libp2p extension carries a parsable host key and a
/// parsable signature names that host key; it passes verification when the
/// signature is that key's signature of the salted certificate key.
pub proof fn lemma_signed_cert_verifies(
    cert_pk: Seq<u8>,
    exts: Seq<(Seq<u64>, Seq<u8>)>,
    host_pk: Seq<u8>,
    proof: Seq<u8>,
)
    requires
        20 + cert_pk.len() <= SALT_BUF_LEN,
        first_p2p_ext(exts) == Some(p2p_ext_content(host_pk, proof)),
        host_pk.len() < 0x1_0000_0000,
        proof.len() < 0x1_0000_0000,
        secp256k1_public_parsed(host_pk) == Some(host_pk),
        secp256k1_signature_parsed(proof) == Some(proof),
    ensures
        secp256k1_verifies(keccak256_digest(salted(cert_pk)), proof, host_pk) ==> spec_cert_verdict(
            Ok((cert_pk, exts)),
        ) == Ok::<(), CertErrorView>(()),
        spec_cert_peer_key(Ok((cert_pk, exts))) == Ok::<Seq<u8>, CertErrorView>(host_pk),
{
    let k = KeyMessageView { key_type: KeyType::Secp256k1.spec_code(), data: host_pk };
    let s = SignedKeyView { public_key: Some(k), signature: proof };
    assert(key_encoded(k).len() < 0x1_0000_0000_0000_0000) by {
        lemma_key_encoded_bound(k);
    }
    lemma_signed_key_roundtrip(s);
}

/// The host's own certificate, once written out, names the host's public key
/// to whoever reads it, and passes the peer's verification when that public
/// key is the one of the secret key that signed it.
pub proof fn lemma_own_certificate_verifies(
    cert: P2PSelfSignedCertificate,
    host_sk: Seq<u8>,
    host_pk: Seq<u8>,
    der: Seq<u8>,
)
    requires
        secp256k1_public_parsed(host_pk) == Some(host_pk),
        host_pk.len() == 33,
        cert.issued_for(host_sk, host_pk),
        cert.serialized_as(der),
    ensures
        spec_cert_peer_key(x509_parsed(der)) == Ok::<Seq<u8>, CertErrorView>(host_pk),
        host_pk == secp256k1_public_of(host_sk) ==> spec_cert_verdict(x509_parsed(der)) == Ok::<(), CertErrorView>(()),
{
    let (k, exts) = x509_parsed(der)->Ok_0;
    let proof = secp256k1_sign(host_sk, keccak256_digest(salted(cert.cert_key())));
    lemma_signed_cert_verifies(cert.cert_key(), exts, host_pk, proof);
}

proof fn lemma_key_encoded_bound(k: KeyMessageView)
    requires
        k.data.len() < 0x1_0000_0000,
    ensures
        key_encoded(k).len() <= k.data.len() + 40,
{
    let a = FieldView { tag: 1, value: WireValue::Varint(k.key_type as u64) };
    let b = FieldView { tag: 2, value: WireValue::Bytes(k.data) };
    lemma_two_fields(a, b);
    lemma_two_fields(b, a);
    crate::proto::lemma_bytes_field_len(2, k.data);
    crate::proto::lemma_varint_field_len(1, k.key_type as u64);
    let fs = key_fields(k);
    if k.key_type != 0 && k.data.len() > 0 {
        assert(fs =~= seq![a, b]);
    } else if k.key_type != 0 {
        assert(fs =~= seq![a]);
    } else if k.data.len() > 0 {
        assert(fs =~= seq![b]);
    } else {
        assert(fs =~= Seq::<FieldView>::empty());
    }
}

} // verus!
