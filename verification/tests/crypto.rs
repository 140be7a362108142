//! Crypto suite tests: defaults, hashing, AEAD round trips, key material
//! and hybrid signature composition.

use lsftp::crypto::{
    combine_hybrid_key_material, combine_hybrid_signatures, combine_key_exchanges,
    split_hybrid_public_key,
    split_hybrid_signature, verify_hybrid_signature, AeadAlgorithm, CryptoSuite, HashAlgorithm,
    KemAlgorithm, KeyExchange, PrivateKey, Signature, SignatureAlgorithm,
};
use lsftp::error::Error;

#[test]
fn test_crypto_suite_default() {
    let suite = CryptoSuite::default();
    assert_eq!(suite.kem, KemAlgorithm::HybridEcdheP256MlKem768);
    assert_eq!(suite.signature, SignatureAlgorithm::HybridEd25519MlDsa65);
    assert_eq!(suite.aead, AeadAlgorithm::ChaCha20Poly1305);
    assert_eq!(suite.hash, HashAlgorithm::Blake3);
}

#[test]
fn test_hash_operations() {
    let suite = CryptoSuite::default();
    let data = b"test data";

    let hash = suite.hash(data).unwrap();
    assert_eq!(hash.len(), 32);
}

#[test]
fn test_encrypt_decrypt() {
    let suite = CryptoSuite::default();
    let key = vec![1u8; 32];
    let nonce = vec![2u8; 12];
    let plaintext = b"secret message";

    let ciphertext = suite.encrypt(plaintext, &key, &nonce).unwrap();
    let decrypted = suite.decrypt(&ciphertext, &key, &nonce).unwrap();

    assert_eq!(plaintext, decrypted.as_slice());
}

#[test]
fn test_private_key_generation() {
    let key = PrivateKey::generate(KemAlgorithm::EcdheP256).unwrap();
    assert_eq!(key.algorithm, KemAlgorithm::EcdheP256);
    assert!(!key.key_material.is_empty());
}

#[test]
fn hash_differs_from_input_and_by_algorithm() {
    let blake = CryptoSuite { hash: HashAlgorithm::Blake3, ..CryptoSuite::default() };
    let sha = CryptoSuite { hash: HashAlgorithm::Sha3256, ..CryptoSuite::default() };
    let data = vec![0u8; 32];
    let hb = blake.hash(&data).unwrap();
    let hs = sha.hash(&data).unwrap();
    assert_ne!(hb, data, "a digest must not be the input handed back");
    assert_ne!(hs, data);
    assert_ne!(hb, hs, "the two hash algorithms must not agree on this input");
    // Known BLAKE3 behavior: the same input hashes to the same digest.
    assert_eq!(hb, blake.hash(&data).unwrap());
}

#[test]
fn encrypt_appends_tag_and_hides_plaintext() {
    for aead in [AeadAlgorithm::ChaCha20Poly1305, AeadAlgorithm::Aes256Gcm] {
        let suite = CryptoSuite { aead, ..CryptoSuite::default() };
        let key = vec![9u8; 32];
        let nonce = vec![3u8; 12];
        let plaintext = b"attack at dawn";
        let ciphertext = suite.encrypt(plaintext, &key, &nonce).unwrap();
        assert_eq!(ciphertext.len(), plaintext.len() + 16);
        assert_ne!(&ciphertext[..plaintext.len()], plaintext.as_slice());
        let decrypted = suite.decrypt(&ciphertext, &key, &nonce).unwrap();
        assert_eq!(decrypted.as_slice(), plaintext.as_slice());
    }
}

#[test]
fn tampered_ciphertext_is_crypto_error() {
    let suite = CryptoSuite::default();
    let key = vec![1u8; 32];
    let nonce = vec![2u8; 12];
    let mut ciphertext = suite.encrypt(b"integrity matters", &key, &nonce).unwrap();
    let last = ciphertext.len() - 1;
    ciphertext[last] ^= 1;
    match suite.decrypt(&ciphertext, &key, &nonce) {
        Err(Error::Crypto(_)) => {}
        _ => panic!("a forged tag must be a crypto error"),
    }
}

#[test]
fn ed25519_sign_then_verify() {
    let suite = CryptoSuite {
        signature: SignatureAlgorithm::Ed25519,
        ..CryptoSuite::default()
    };
    let message = b"signed transcript";
    let sig = suite.sign(message).unwrap();
    assert_eq!(sig.signature.len(), 64);
    assert_eq!(sig.public_key.len(), 32);
    assert!(suite.verify(message, &sig.signature, &sig.public_key).unwrap());
    assert!(!suite.verify(b"another message", &sig.signature, &sig.public_key).unwrap());
}

#[test]
fn hybrid_signature_requires_both_components() {
    let classical_suite = CryptoSuite {
        signature: SignatureAlgorithm::Ed25519,
        ..CryptoSuite::default()
    };
    let message = b"hybrid signed";
    let classical = classical_suite.sign(message).unwrap();

    // Stand in for the post-quantum component with opaque bytes; its
    // verdict enters as an argument.
    let pq = Signature {
        signature: vec![0x5A; 128],
        public_key: vec![0xA5; 64],
        algorithm: SignatureAlgorithm::MlDsa65,
    };
    let hybrid = combine_hybrid_signatures(classical, pq);
    assert_eq!(hybrid.algorithm, SignatureAlgorithm::HybridEd25519MlDsa65);
    assert_eq!(hybrid.signature.len(), 64 + 128);
    assert_eq!(hybrid.public_key.len(), 32 + 64);

    // Both components fine: accepted.
    let ok = verify_hybrid_signature(message, &hybrid.signature, &hybrid.public_key, true).unwrap();
    assert!(ok);
    // Post-quantum component rejected: the whole signature is rejected.
    let pq_bad =
        verify_hybrid_signature(message, &hybrid.signature, &hybrid.public_key, false).unwrap();
    assert!(!pq_bad);
    // Classical component rejected: the whole signature is rejected.
    let mut forged = hybrid.signature.clone();
    forged[0] ^= 1;
    let classical_bad =
        verify_hybrid_signature(message, &forged, &hybrid.public_key, true).unwrap();
    assert!(!classical_bad);
}

#[test]
fn hybrid_blob_too_short_is_crypto_error() {
    match split_hybrid_signature(&[0u8; 63]) {
        Err(Error::Crypto(_)) => {}
        _ => panic!("a hybrid signature shorter than a classical one must be rejected"),
    }
    match split_hybrid_public_key(&[0u8; 31]) {
        Err(Error::Crypto(_)) => {}
        _ => panic!("a hybrid public key shorter than a classical one must be rejected"),
    }
    let (c, p) = split_hybrid_signature(&[7u8; 70]).unwrap();
    assert_eq!(c.len(), 64);
    assert_eq!(p.len(), 6);
}

#[test]
fn classical_key_exchange_and_hybrid_combination() {
    let suite = CryptoSuite { kem: KemAlgorithm::EcdheP256, ..CryptoSuite::default() };
    let peer = PrivateKey::generate(KemAlgorithm::EcdheP256).unwrap();
    let kx = suite.perform_key_exchange(&peer.key_material).unwrap();
    assert_eq!(kx.shared_secret.len(), 32);
    assert_eq!(kx.public_key.len(), 32);

    let pq = KeyExchange {
        shared_secret: vec![0x11; 32],
        public_key: vec![0x22; 1184],
        algorithm: KemAlgorithm::MlKem768,
    };
    let classical_secret = kx.shared_secret.clone();
    let hybrid = combine_key_exchanges(kx, pq);
    assert_eq!(hybrid.algorithm, KemAlgorithm::HybridEcdheP256MlKem768);
    assert_eq!(hybrid.shared_secret.len(), 64);
    assert_eq!(&hybrid.shared_secret[..32], classical_secret.as_slice());
    assert_eq!(hybrid.public_key.len(), 32 + 1184);
}

#[test]
fn post_quantum_backends_report_crypto_errors() {
    let suite = CryptoSuite::default();
    assert!(matches!(suite.sign(b"m"), Err(Error::Crypto(_))));
    assert!(matches!(suite.verify(b"m", &[0; 64], &[0; 32]), Err(Error::Crypto(_))));
    assert!(matches!(suite.perform_key_exchange(&[0; 32]), Err(Error::Crypto(_))));
    assert!(matches!(PrivateKey::generate(KemAlgorithm::MlKem768), Err(Error::Crypto(_))));
}

#[test]
fn private_key_destroy_clears_material() {
    let mut key = PrivateKey::new(KemAlgorithm::EcdheP256, vec![0x42; 32]).unwrap();
    assert_eq!(key.key_material.len(), 32);
    key.destroy();
    assert!(key.key_material.is_empty());
}

#[test]
fn key_exchange_does_not_echo_the_peer_value() {
    let suite = CryptoSuite { kem: KemAlgorithm::EcdheP256, ..CryptoSuite::default() };
    let peer = PrivateKey::generate(KemAlgorithm::EcdheP256).unwrap();
    let kx = suite.perform_key_exchange(&peer.key_material).unwrap();
    assert_ne!(kx.shared_secret, peer.key_material);
    assert_ne!(kx.public_key, peer.key_material);
}

#[test]
fn hybrid_key_material_concatenates_components() {
    let classical = PrivateKey::new(KemAlgorithm::EcdheP256, vec![1u8; 32]).unwrap();
    let pq_material = vec![2u8; 2400];
    let hybrid = combine_hybrid_key_material(classical, pq_material);
    assert_eq!(hybrid.algorithm, KemAlgorithm::HybridEcdheP256MlKem768);
    assert_eq!(hybrid.key_material.len(), 32 + 2400);
    assert_eq!(&hybrid.key_material[..32], &[1u8; 32]);
    assert_eq!(&hybrid.key_material[32..], vec![2u8; 2400].as_slice());
}
