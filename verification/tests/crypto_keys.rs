use wormhole::crypto::{keccak256_hash, CryptoError, PeerId, PrivateKey, PublicKey, Signature};

fn secret(byte: u8) -> PrivateKey {
    PrivateKey::from_slice(&[byte; 32]).expect("valid secret key")
}

#[test]
fn private_key_rejects_zero_and_short_keys() {
    assert!(matches!(PrivateKey::from_slice(&[0u8; 32]), Err(CryptoError::InvalidPrivateKey)));
    assert!(matches!(PrivateKey::from_slice(&[1u8; 31]), Err(CryptoError::InvalidPrivateKey)));
    assert!(PrivateKey::from_slice(&[1u8; 32]).is_ok());
}

#[test]
fn public_key_is_compressed_and_parses_back() {
    let pk = secret(7).pubkey();
    let bytes = pk.to_bytes();
    assert_eq!(bytes.len(), 33);
    assert!(bytes[0] == 2 || bytes[0] == 3);
    let again = PublicKey::from_slice(&bytes).expect("parses");
    assert_eq!(again.to_bytes(), bytes);
    assert_eq!(pk.as_slice(), bytes.as_slice());
}

#[test]
fn public_key_rejects_garbage() {
    assert!(matches!(PublicKey::from_slice(&[9u8; 33]), Err(CryptoError::InvalidPublicKey)));
    assert!(matches!(PublicKey::from_slice(&[]), Err(CryptoError::InvalidPublicKey)));
}

#[test]
fn keccak256_of_empty_input() {
    let h = keccak256_hash(&[]);
    let expected: Vec<u8> = vec![
        0xc5, 0xd2, 0x46, 0x01, 0x86, 0xf7, 0x23, 0x3c, 0x92, 0x7e, 0x7d, 0xb2, 0xdc, 0xc7, 0x03, 0xc0,
        0xe5, 0x00, 0xb6, 0x53, 0xca, 0x82, 0x27, 0x3b, 0x7b, 0xfa, 0xd8, 0x04, 0x5d, 0x85, 0xa4, 0x70,
    ];
    assert_eq!(h.as_slice(), expected.as_slice());
}

#[test]
fn signature_verifies_under_own_key_only() {
    let sk = secret(3);
    let pk = sk.pubkey();
    let msg = keccak256_hash(b"hello");
    let sig = sk.sign(&msg).expect("signs");
    assert_eq!(sig.to_bytes().len(), 64);
    assert!(pk.verify(&msg, &sig).is_ok());

    let other = keccak256_hash(b"hullo");
    assert!(matches!(pk.verify(&other, &sig), Err(CryptoError::InvalidSignature)));

    let stranger = secret(4).pubkey();
    assert!(matches!(stranger.verify(&msg, &sig), Err(CryptoError::InvalidSignature)));
}

#[test]
fn signature_parses_back_and_rejects_short_input() {
    let sk = secret(5);
    let sig = sk.sign(&keccak256_hash(b"x")).expect("signs");
    let again = Signature::from_slice(&sig.to_bytes()).expect("parses");
    assert_eq!(again.to_bytes(), sig.to_bytes());
    assert!(matches!(Signature::from_slice(&[1u8; 10]), Err(CryptoError::InvalidSignature)));
}

#[test]
fn peer_id_is_keccak_multihash_of_key_digest() {
    let pk = secret(9).pubkey();
    let id = pk.peer_id();
    let bytes = id.as_slice().to_vec();
    assert_eq!(bytes.len(), 34);
    assert_eq!(bytes[0], 0x1b);
    assert_eq!(bytes[1], 0x20);
    let digest = keccak256_hash(pk.as_slice());
    let expected = parity_multihash::encode(parity_multihash::Hash::Keccak256, digest.as_slice())
        .expect("encodes");
    assert_eq!(bytes, expected.as_bytes().to_vec());
    assert_ne!(bytes[2..].to_vec(), digest.as_slice().to_vec());
}

#[test]
fn peer_id_text_is_base58_of_its_bytes() {
    let id = secret(11).pubkey().peer_id();
    assert_eq!(id.string(), bs58::encode(id.as_slice()).into_string());
    let pk = secret(11).pubkey();
    assert_eq!(pk.string(), bs58::encode(pk.as_slice()).into_string());
}

#[test]
fn peer_id_from_bytes_checks_the_multihash() {
    let id = secret(12).pubkey().peer_id();
    let again = PeerId::from_bytes(id.as_slice().to_vec()).expect("valid multihash");
    assert!(again.same(&id));
    assert_eq!(again.into_inner().as_bytes(), id.as_slice());
    assert!(PeerId::from_bytes(vec![0x1b, 0x20, 1, 2]).is_none());
    assert!(PeerId::from_bytes(vec![]).is_none());
}

#[test]
fn distinct_keys_give_distinct_peer_ids() {
    let a = secret(1).pubkey().peer_id();
    let b = secret(2).pubkey().peer_id();
    assert!(!a.same(&b));
    assert!(a.same(&a.clone()));
}
