use wormhole::crypto::{keccak256_hash, CryptoError, PrivateKey, PublicKey};
use wormhole::tls::cert_verifier::{
    ClientAuth, PeerCertVerifier, PeerCertVerifyError, PeerCertificateVerifierError, ServerAuth,
};
use wormhole::tls::certificate::{
    DerCertificateVerifyError, InternalError, KeyMessage, KeyType, P2POid, P2PSelfSignedCertificate,
    SignedKey,
};

const OID: [u64; 9] = [1, 3, 6, 1, 4, 1, 53594, 1, 1];

fn keys(byte: u8) -> (PrivateKey, PublicKey) {
    let sk = PrivateKey::from_slice(&[byte; 32]).unwrap();
    let pk = sk.pubkey();
    (sk, pk)
}

fn proof_for(sk: &PrivateKey, cert_pk: &[u8]) -> Vec<u8> {
    let mut salted = b"libp2p-tls-handshake".to_vec();
    salted.extend_from_slice(cert_pk);
    sk.sign(&keccak256_hash(&salted)).unwrap().to_bytes()
}

fn parsed(cert_pk: Vec<u8>, exts: Vec<(Vec<u64>, Vec<u8>)>) -> Result<(Vec<u8>, Vec<(Vec<u64>, Vec<u8>)>), String> {
    Ok((cert_pk, exts))
}

#[test]
fn signed_key_encoding_is_exact() {
    let k = SignedKey::new(&[7, 8], &[9]);
    assert_eq!(k.encode(), vec![0x0a, 6, 0x08, 2, 0x12, 2, 7, 8, 0x12, 1, 9]);
}

#[test]
fn signed_key_reads_back() {
    let (_, pk) = keys(1);
    let k = SignedKey::new(pk.as_slice(), &[1, 2, 3]);
    let back = SignedKey::decode(&k.encode()).expect("decodes");
    let key = back.public_key.expect("has a key");
    assert_eq!(key.key_type, KeyType::Secp256k1.code());
    assert_eq!(key.data, pk.to_bytes());
    assert_eq!(back.signature, vec![1, 2, 3]);
}

#[test]
fn signed_key_merges_repeated_key_messages() {
    // key message with type 1, then one with data only: the type stays
    let bytes = vec![0x0a, 2, 0x08, 1, 0x0a, 3, 0x12, 1, 5];
    let k = SignedKey::decode(&bytes).expect("decodes");
    let key = k.public_key.unwrap();
    assert_eq!(key.key_type, 1);
    assert_eq!(key.data, vec![5]);
    assert!(k.signature.is_empty());
}

#[test]
fn signed_key_negative_key_type_reads_back() {
    let k = SignedKey { public_key: Some(KeyMessage { key_type: -1, data: vec![] }), signature: vec![] };
    let bytes = k.encode();
    assert_eq!(bytes.len(), 13);
    assert_eq!(SignedKey::decode(&bytes).unwrap().public_key.unwrap().key_type, -1);
}

#[test]
fn key_type_codes_and_labels() {
    assert_eq!(KeyType::Rsa.code(), 0);
    assert_eq!(KeyType::Ed25519.code(), 1);
    assert_eq!(KeyType::Secp256k1.code(), 2);
    assert_eq!(KeyType::Ecdsa.code(), 3);
    assert_eq!(KeyType::Secp256k1.label(), "secp256k1");
}

#[test]
fn p2p_oid_matching() {
    assert!(P2POid::matched(&OID));
    assert!(P2POid::matched(&[1, 3, 6]));
    assert!(P2POid::matched(&[]));
    assert!(!P2POid::matched(&[2, 5, 29, 17]));
    assert!(!P2POid::matched(&[1, 3, 6, 1, 4, 1, 53594, 1, 2]));
}

#[test]
fn parsed_certificate_with_valid_proof_verifies() {
    let (sk, pk) = keys(2);
    let cert_pk = vec![4u8; 97];
    let ext = SignedKey::new(pk.as_slice(), &proof_for(&sk, &cert_pk)).encode();
    let exts = vec![(vec![2, 5, 29, 17], vec![1]), (OID.to_vec(), ext)];
    assert!(P2PSelfSignedCertificate::verify_parsed(parsed(cert_pk.clone(), exts.clone())).is_ok());
    let got = P2PSelfSignedCertificate::peer_pubkey_of_parsed(parsed(cert_pk, exts)).unwrap();
    assert_eq!(got.to_bytes(), pk.to_bytes());
}

#[test]
fn proof_over_another_certificate_key_is_refused() {
    let (sk, pk) = keys(2);
    let ext = SignedKey::new(pk.as_slice(), &proof_for(&sk, &[4u8; 97])).encode();
    let r = P2PSelfSignedCertificate::verify_parsed(parsed(vec![5u8; 97], vec![(OID.to_vec(), ext)]));
    assert!(matches!(r, Err(DerCertificateVerifyError::InvalidProof(CryptoError::InvalidSignature))));
}

#[test]
fn certificate_errors_by_cause() {
    let (sk, pk) = keys(3);
    let cert_pk = vec![1u8; 10];
    let sig = proof_for(&sk, &cert_pk);

    let r = P2PSelfSignedCertificate::verify_parsed(Err("bad der".to_string()));
    assert!(matches!(r, Err(DerCertificateVerifyError::ParseError(ref s)) if s == "bad der"));

    let r = P2PSelfSignedCertificate::verify_parsed(parsed(cert_pk.clone(), vec![(vec![2, 5], vec![])]));
    assert!(matches!(r, Err(DerCertificateVerifyError::NoProof)));

    let r = P2PSelfSignedCertificate::verify_parsed(parsed(cert_pk.clone(), vec![(OID.to_vec(), vec![0xff])]));
    assert!(matches!(r, Err(DerCertificateVerifyError::SignedKeyDecodeError)));

    let no_key = SignedKey { public_key: None, signature: sig.clone() }.encode();
    let r = P2PSelfSignedCertificate::verify_parsed(parsed(cert_pk.clone(), vec![(OID.to_vec(), no_key)]));
    assert!(matches!(r, Err(DerCertificateVerifyError::NoPeerPublicKey)));

    let rsa = SignedKey { public_key: Some(KeyMessage { key_type: 0, data: pk.to_bytes() }), signature: sig.clone() }.encode();
    let r = P2PSelfSignedCertificate::verify_parsed(parsed(cert_pk.clone(), vec![(OID.to_vec(), rsa)]));
    assert!(matches!(r, Err(DerCertificateVerifyError::UnsupportedPeerPublicKeyType(0))));

    let bad_key = SignedKey::new(&[9u8; 33], &sig).encode();
    let r = P2PSelfSignedCertificate::verify_parsed(parsed(cert_pk.clone(), vec![(OID.to_vec(), bad_key)]));
    assert!(matches!(r, Err(DerCertificateVerifyError::InvalidPeerPublicKey(CryptoError::InvalidPublicKey))));

    let bad_sig = SignedKey::new(pk.as_slice(), &[1, 2, 3]).encode();
    let r = P2PSelfSignedCertificate::verify_parsed(parsed(cert_pk.clone(), vec![(OID.to_vec(), bad_sig)]));
    assert!(matches!(r, Err(DerCertificateVerifyError::InvalidProof(CryptoError::InvalidSignature))));

    let big = vec![1u8; 981];
    let ext = SignedKey::new(pk.as_slice(), &sig).encode();
    let r = P2PSelfSignedCertificate::verify_parsed(parsed(big, vec![(OID.to_vec(), ext)]));
    assert!(matches!(
        r,
        Err(DerCertificateVerifyError::UnexpectedError(InternalError::CertificatePublicKeyTooLarge { max: 1000, real: 1001 }))
    ));
}

#[test]
fn first_matching_extension_is_used() {
    let (sk, pk) = keys(4);
    let cert_pk = vec![2u8; 20];
    let good = SignedKey::new(pk.as_slice(), &proof_for(&sk, &cert_pk)).encode();
    let exts = vec![(OID.to_vec(), vec![0xff]), (OID.to_vec(), good)];
    let r = P2PSelfSignedCertificate::verify_parsed(parsed(cert_pk, exts));
    assert!(matches!(r, Err(DerCertificateVerifyError::SignedKeyDecodeError)));
}

#[test]
fn host_certificate_round_trips_through_der() {
    let (sk, pk) = keys(5);
    let cert = P2PSelfSignedCertificate::from_host(&sk, &pk).ok().expect("certificate");
    assert_eq!(cert.p2p_ext(), SignedKey::new(pk.as_slice(), &proof_for(&sk, &cert.cert_pubkey())).encode());
    let der = cert.serialize_der().ok().expect("der");
    assert!(P2PSelfSignedCertificate::verify_cert_ext(&der).is_ok());
    let got = P2PSelfSignedCertificate::recover_peer_pubkey(&der).unwrap();
    assert_eq!(got.to_bytes(), pk.to_bytes());
    assert!(!cert.serialize_private_key_der().is_empty());
    assert!(PeerCertVerifier::verify(&vec![der.clone()]).is_ok());
    assert!(ClientAuth.verify_client_cert(&vec![der.clone()]).is_ok());
    assert!(ServerAuth.verify_server_cert(&vec![der]).is_ok());
}

#[test]
fn certificate_of_another_host_key_is_refused() {
    let (sk, _) = keys(6);
    let (_, other) = keys(7);
    let cert = P2PSelfSignedCertificate::from_host(&sk, &other).ok().expect("certificate");
    let der = cert.serialize_der().ok().expect("der");
    assert!(matches!(
        P2PSelfSignedCertificate::verify_cert_ext(&der),
        Err(DerCertificateVerifyError::InvalidProof(CryptoError::InvalidSignature))
    ));
}

#[test]
fn garbage_der_is_a_parse_error() {
    assert!(matches!(
        P2PSelfSignedCertificate::verify_cert_ext(&[1, 2, 3]),
        Err(DerCertificateVerifyError::ParseError(_))
    ));
    assert!(matches!(
        P2PSelfSignedCertificate::recover_peer_pubkey(&[]),
        Err(DerCertificateVerifyError::ParseError(_))
    ));
}

#[test]
fn chain_must_hold_one_certificate() {
    assert!(matches!(
        PeerCertVerifier::verify(&vec![]),
        Err(PeerCertVerifyError::Chain(PeerCertificateVerifierError::MoreThanOneCertificate(0)))
    ));
    assert!(matches!(
        PeerCertVerifier::verify(&vec![vec![1], vec![2]]),
        Err(PeerCertVerifyError::Chain(PeerCertificateVerifierError::MoreThanOneCertificate(2)))
    ));
    assert!(matches!(
        PeerCertVerifier::verify(&vec![vec![1]]),
        Err(PeerCertVerifyError::Certificate(DerCertificateVerifyError::ParseError(_)))
    ));
    assert!(ClientAuth.offer_client_auth());
    assert!(ClientAuth.client_auth_mandatory());
}

#[test]
fn key_errors_map_to_certificate_errors() {
    assert!(matches!(
        DerCertificateVerifyError::from(CryptoError::InvalidPublicKey),
        DerCertificateVerifyError::InvalidPeerPublicKey(CryptoError::InvalidPublicKey)
    ));
    assert!(matches!(
        DerCertificateVerifyError::from(CryptoError::InvalidSignature),
        DerCertificateVerifyError::InvalidProof(CryptoError::InvalidSignature)
    ));
    assert!(matches!(
        DerCertificateVerifyError::from(CryptoError::InvalidPrivateKey),
        DerCertificateVerifyError::UnexpectedError(InternalError::Crypto(CryptoError::InvalidPrivateKey))
    ));
}

#[test]
fn internal_errors_are_unexpected_certificate_errors() {
    let e = InternalError::CertificatePublicKeyTooLarge { max: 1000, real: 2000 };
    assert!(matches!(
        DerCertificateVerifyError::from(e),
        DerCertificateVerifyError::UnexpectedError(InternalError::CertificatePublicKeyTooLarge { max: 1000, real: 2000 })
    ));
}

#[test]
fn private_key_is_the_certificate_key_pair() {
    let (sk, pk) = keys(8);
    let cert = P2PSelfSignedCertificate::from_host(&sk, &pk).ok().expect("certificate");
    let der = cert.serialize_private_key_der();
    let pair = rcgen::KeyPair::try_from(der.as_slice()).expect("PKCS#8 document");
    assert_eq!(pair.public_key_raw().to_vec(), cert.cert_pubkey());
}

#[test]
fn every_serialization_verifies_and_names_the_host() {
    let (sk, pk) = keys(9);
    let cert = P2PSelfSignedCertificate::from_host(&sk, &pk).ok().expect("certificate");
    let first = cert.serialize_der().ok().expect("der");
    let second = cert.serialize_der().ok().expect("der");
    assert_ne!(first, second);
    for der in [first, second].iter() {
        assert!(P2PSelfSignedCertificate::verify_cert_ext(der).is_ok());
        assert_eq!(P2PSelfSignedCertificate::recover_peer_pubkey(der).unwrap().to_bytes(), pk.to_bytes());
    }
}
