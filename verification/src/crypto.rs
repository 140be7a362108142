//! Cryptographic suite: algorithm selection, hashing, AEAD, signatures and
//! key exchange, with hybrid (classical plus post-quantum) composition.
//!
//! The classical primitives, the AEAD ciphers and the hashes are called
//! through trusted wrappers around their crates. The post-quantum backend is
//! not linked in this build, so the component values it produces (ML-KEM
//! shared secrets, ML-DSA signatures and verdicts) enter the verified hybrid
//! composition functions as arguments.

use vstd::prelude::*;

use crate::clock::now_unix_seconds;
use crate::error::Error;
use crate::util::push_bytes;

verus! {

/// Length of an Ed25519 signature in bytes.
pub const ED25519_SIGNATURE_LEN: usize = 64;

/// Length of an Ed25519 public key in bytes.
pub const ED25519_PUBLIC_KEY_LEN: usize = 32;

/// Supported key-exchange algorithms.
#[derive(Debug, Clone, Copy, PartialEq, Eq, Structural)]
pub enum KemAlgorithm {
    /// Classical elliptic-curve Diffie-Hellman
    EcdheP256,
    /// Hybrid: classical ECDH combined with ML-KEM-768 (default)
    HybridEcdheP256MlKem768,
    /// Pure post-quantum ML-KEM-768
    MlKem768,
    /// Pure post-quantum ML-KEM-1024
    MlKem1024,
}

/// Supported signature algorithms.
#[derive(Debug, Clone, Copy, PartialEq, Eq, Structural)]
pub enum SignatureAlgorithm {
    /// Classical Ed25519
    Ed25519,
    /// Hybrid: Ed25519 combined with ML-DSA-65 (default)
    HybridEd25519MlDsa65,
    /// Pure post-quantum ML-DSA-65
    MlDsa65,
    /// Pure post-quantum ML-DSA-87
    MlDsa87,
}

/// Supported AEAD algorithms; both carry a 16-byte tag.
#[derive(Debug, Clone, Copy, PartialEq, Eq, Structural)]
pub enum AeadAlgorithm {
    /// ChaCha20-Poly1305
    ChaCha20Poly1305,
    /// AES-256-GCM
    Aes256Gcm,
}

/// Supported hash algorithms; both produce 32-byte digests.
#[derive(Debug, Clone, Copy, PartialEq, Eq, Structural)]
pub enum HashAlgorithm {
    /// BLAKE3
    Blake3,
    /// SHA3-256
    Sha3256,
}

/// The algorithm selection both peers converge on during the handshake.
#[derive(Debug, Clone, Copy, PartialEq, Eq, Structural)]
pub struct CryptoSuite {
    pub kem: KemAlgorithm,
    pub signature: SignatureAlgorithm,
    pub aead: AeadAlgorithm,
    pub hash: HashAlgorithm,
    pub version: u16,
}

/// The default suite: hybrid everywhere.
pub open spec fn spec_default_suite() -> CryptoSuite {
    CryptoSuite {
        kem: KemAlgorithm::HybridEcdheP256MlKem768,
        signature: SignatureAlgorithm::HybridEd25519MlDsa65,
        aead: AeadAlgorithm::ChaCha20Poly1305,
        hash: HashAlgorithm::Blake3,
        version: 1,
    }
}

impl Default for CryptoSuite {
    /// Hybrid key exchange and signatures, ChaCha20-Poly1305, BLAKE3.
    fn default() -> (r: Self)
        ensures
            r == spec_default_suite(),
    {
        CryptoSuite {
            kem: KemAlgorithm::HybridEcdheP256MlKem768,
            signature: SignatureAlgorithm::HybridEd25519MlDsa65,
            aead: AeadAlgorithm::ChaCha20Poly1305,
            hash: HashAlgorithm::Blake3,
            version: 1,
        }
    }
}

/// Result of a key exchange: the shared secret and our public value.
#[derive(Debug)]
pub struct KeyExchange {
    pub shared_secret: Vec<u8>,
    pub public_key: Vec<u8>,
    pub algorithm: KemAlgorithm,
}

/// A signature together with the public key that verifies it.
#[derive(Debug)]
pub struct Signature {
    pub signature: Vec<u8>,
    pub public_key: Vec<u8>,
    pub algorithm: SignatureAlgorithm,
}

/// The BLAKE3 digest of a byte sequence. The digest is a function of the
/// bytes alone; its value is not stated here.
pub uninterp spec fn blake3_of(data: Seq<u8>) -> Seq<u8>;

/// The SHA3-256 digest of a byte sequence.
pub uninterp spec fn sha3_256_of(data: Seq<u8>) -> Seq<u8>;

/// Whether an Ed25519 signature verifies for a message under a public key.
pub uninterp spec fn ed25519_verifies(msg: Seq<u8>, sig: Seq<u8>, pk: Seq<u8>) -> bool;

/// The ChaCha20-Poly1305 sealing of a plaintext under a key and nonce, with
/// empty associated data: ciphertext followed by the 16-byte tag.
pub uninterp spec fn chacha_seal(key: Seq<u8>, nonce: Seq<u8>, plaintext: Seq<u8>) -> Seq<u8>;

/// The ChaCha20-Poly1305 opening of a ciphertext: the plaintext when the tag
/// authenticates, nothing otherwise.
pub uninterp spec fn chacha_open(key: Seq<u8>, nonce: Seq<u8>, ciphertext: Seq<u8>) -> Option<
    Seq<u8>,
>;

/// The AES-256-GCM sealing of a plaintext under a key and nonce, with empty
/// associated data: ciphertext followed by the 16-byte tag.
pub uninterp spec fn aes_gcm_seal(key: Seq<u8>, nonce: Seq<u8>, plaintext: Seq<u8>) -> Seq<u8>;

/// The AES-256-GCM opening of a ciphertext: the plaintext when the tag
/// authenticates, nothing otherwise.
pub uninterp spec fn aes_gcm_open(key: Seq<u8>, nonce: Seq<u8>, ciphertext: Seq<u8>) -> Option<
    Seq<u8>,
>;

/// The bytes a streaming hasher has absorbed so far.
pub uninterp spec fn hasher_bytes(h: blake3::Hasher) -> Seq<u8>;

#[verifier::external_type_specification]
#[verifier::external_body]
pub struct ExBlake3Hasher(blake3::Hasher);

/// Relies on `blake3::hash`: a 32-byte digest that depends on the input
/// bytes alone.
#[verifier::external_body]
pub fn blake3_hash(data: &[u8]) -> (r: Vec<u8>)
    ensures
        r@ == blake3_of(data@),
        r@.len() == 32,
{
    blake3::hash(data).as_bytes().to_vec()
}

/// Relies on `sha3::Sha3_256` through the `digest` traits: a 32-byte digest
/// that depends on the input bytes alone.
#[verifier::external_body]
pub fn sha3_256_hash(data: &[u8]) -> (r: Vec<u8>)
    ensures
        r@ == sha3_256_of(data@),
        r@.len() == 32,
{
    let mut hasher = <sha3::Sha3_256 as sha3::Digest>::new();
    sha3::Digest::update(&mut hasher, data);
    sha3::Digest::finalize(hasher).to_vec()
}

/// Relies on `blake3::Hasher::new`: a fresh hasher has absorbed nothing.
#[verifier::external_body]
pub fn hasher_new() -> (r: blake3::Hasher)
    ensures
        hasher_bytes(r) == Seq::<u8>::empty(),
{
    blake3::Hasher::new()
}

/// Relies on `blake3::Hasher::update`: absorbing appends the input to the
/// bytes hashed so far.
#[verifier::external_body]
pub fn hasher_update(h: &mut blake3::Hasher, data: &[u8])
    ensures
        hasher_bytes(*final(h)) == hasher_bytes(*old(h)) + data@,
{
    h.update(data);
}

/// Relies on `blake3::Hasher::finalize`: the digest of the absorbed bytes,
/// equal to an independent one-shot hash of the same bytes; the hasher state
/// is unchanged.
#[verifier::external_body]
pub fn hasher_finalize(h: &blake3::Hasher) -> (r: Vec<u8>)
    ensures
        r@ == blake3_of(hasher_bytes(*h)),
        r@.len() == 32,
{
    h.finalize().as_bytes().to_vec()
}

/// Relies on `chacha20poly1305::ChaCha20Poly1305` (`KeyInit::new_from_slice`
/// and `aead::Aead::encrypt`): sealing is deterministic in key, nonce and
/// plaintext, appends a 16-byte tag, and succeeds for any plaintext bounded
/// by the cipher's block-count limit.
#[verifier::external_body]
fn chacha20poly1305_seal(key: &[u8], nonce: &[u8], plaintext: &[u8]) -> (r: Vec<u8>)
    requires
        key@.len() == 32,
        nonce@.len() == 12,
        plaintext@.len() <= 0xFFFF_FFFF,
    ensures
        r@ == chacha_seal(key@, nonce@, plaintext@),
        r@.len() == plaintext@.len() + 16,
        chacha_open(key@, nonce@, r@) == Some(plaintext@),
{
    let cipher = <chacha20poly1305::ChaCha20Poly1305 as chacha20poly1305::KeyInit>::new_from_slice(
        key,
    ).unwrap();
    let n = chacha20poly1305::Nonce::try_from(nonce).unwrap();
    chacha20poly1305::aead::Aead::encrypt(&cipher, &n, plaintext).unwrap()
}

/// Relies on `chacha20poly1305::ChaCha20Poly1305` (`aead::Aead::decrypt`):
/// opening inverts sealing under the same key and nonce and fails on a
/// forged or truncated ciphertext.
#[verifier::external_body]
fn chacha20poly1305_open(key: &[u8], nonce: &[u8], ciphertext: &[u8]) -> (r: Result<Vec<u8>, Error>)
    requires
        key@.len() == 32,
        nonce@.len() == 12,
    ensures
        r is Ok <==> chacha_open(key@, nonce@, ciphertext@) is Some,
        r matches Ok(p) ==> chacha_open(key@, nonce@, ciphertext@) == Some(p@),
        r matches Ok(p) ==> p@.len() + 16 == ciphertext@.len(),
        r matches Err(e) ==> e is Crypto,
{
    let cipher = <chacha20poly1305::ChaCha20Poly1305 as chacha20poly1305::KeyInit>::new_from_slice(
        key,
    ).unwrap();
    let n = chacha20poly1305::Nonce::try_from(nonce).unwrap();
    chacha20poly1305::aead::Aead::decrypt(&cipher, &n, ciphertext).map_err(
        |_| Error::Crypto(String::from_str("decryption failed")),
    )
}

/// Relies on `aes_gcm::Aes256Gcm` (`KeyInit::new_from_slice` and
/// `aead::Aead::encrypt`): sealing is deterministic in key, nonce and
/// plaintext, appends a 16-byte tag, and succeeds for any plaintext under
/// the cipher's length limit.
#[verifier::external_body]
fn aes256gcm_seal(key: &[u8], nonce: &[u8], plaintext: &[u8]) -> (r: Vec<u8>)
    requires
        key@.len() == 32,
        nonce@.len() == 12,
        plaintext@.len() <= 0xFFFF_FFFF,
    ensures
        r@ == aes_gcm_seal(key@, nonce@, plaintext@),
        r@.len() == plaintext@.len() + 16,
        aes_gcm_open(key@, nonce@, r@) == Some(plaintext@),
{
    let cipher = <aes_gcm::Aes256Gcm as aes_gcm::KeyInit>::new_from_slice(key).unwrap();
    let n = aes_gcm::Nonce::try_from(nonce).unwrap();
    aes_gcm::aead::Aead::encrypt(&cipher, &n, plaintext).unwrap()
}

/// Relies on `aes_gcm::Aes256Gcm` (`aead::Aead::decrypt`): opening inverts
/// sealing under the same key and nonce and fails on a forged or truncated
/// ciphertext.
#[verifier::external_body]
fn aes256gcm_open(key: &[u8], nonce: &[u8], ciphertext: &[u8]) -> (r: Result<Vec<u8>, Error>)
    requires
        key@.len() == 32,
        nonce@.len() == 12,
    ensures
        r is Ok <==> aes_gcm_open(key@, nonce@, ciphertext@) is Some,
        r matches Ok(p) ==> aes_gcm_open(key@, nonce@, ciphertext@) == Some(p@),
        r matches Ok(p) ==> p@.len() + 16 == ciphertext@.len(),
        r matches Err(e) ==> e is Crypto,
{
    let cipher = <aes_gcm::Aes256Gcm as aes_gcm::KeyInit>::new_from_slice(key).unwrap();
    let n = aes_gcm::Nonce::try_from(nonce).unwrap();
    aes_gcm::aead::Aead::decrypt(&cipher, &n, ciphertext).map_err(
        |_| Error::Crypto(String::from_str("decryption failed")),
    )
}

/// Relies on `ring::signature::UnparsedPublicKey::verify` with the
/// `ED25519` algorithm: the verdict depends on message, signature and public
/// key alone.
#[verifier::external_body]
fn ed25519_verify(message: &[u8], signature: &[u8], public_key: &[u8]) -> (r: bool)
    ensures
        r == ed25519_verifies(message@, signature@, public_key@),
{
    let pk = ring::signature::UnparsedPublicKey::new(&ring::signature::ED25519, public_key);
    pk.verify(message, signature).is_ok()
}

/// Relies on `ring::signature::Ed25519KeyPair` (`generate_pkcs8`,
/// `from_pkcs8`, `sign` and `KeyPair::public_key`): a fresh keypair signs
/// the message with a 64-byte signature that verifies under its 32-byte
/// public key. Key generation draws randomness, so which key comes back is
/// not stated.
#[verifier::external_body]
fn ed25519_sign_fresh(message: &[u8]) -> (r: Result<(Vec<u8>, Vec<u8>), Error>)
    ensures
        r matches Ok(p) ==> p.0@.len() == 64 && p.1@.len() == 32,
        r matches Ok(p) ==> ed25519_verifies(message@, p.0@, p.1@),
        r matches Err(e) ==> e is Crypto,
{
    let rng = ring::rand::SystemRandom::new();
    let pkcs8 = ring::signature::Ed25519KeyPair::generate_pkcs8(&rng).map_err(
        |_| Error::Crypto(String::from_str("key generation failed")),
    )?;
    let key_pair = ring::signature::Ed25519KeyPair::from_pkcs8(pkcs8.as_ref()).map_err(
        |_| Error::Crypto(String::from_str("key rejected")),
    )?;
    let sig = key_pair.sign(message);
    let pk = <ring::signature::Ed25519KeyPair as ring::signature::KeyPair>::public_key(&key_pair);
    Ok((sig.as_ref().to_vec(), pk.as_ref().to_vec()))
}

/// Relies on `ring::agreement` with `X25519` (`EphemeralPrivateKey::
/// generate`, `compute_public_key`, `agree_ephemeral`): on success the
/// shared secret and our public value are 32 bytes each. The ephemeral key
/// is random, so the values themselves are not stated.
#[verifier::external_body]
fn x25519_key_exchange(peer_public_key: &[u8]) -> (r: Result<(Vec<u8>, Vec<u8>), Error>)
    ensures
        r matches Ok(p) ==> p.0@.len() == 32 && p.1@.len() == 32,
        r matches Err(e) ==> e is Crypto,
{
    let rng = ring::rand::SystemRandom::new();
    let private_key = ring::agreement::EphemeralPrivateKey::generate(
        &ring::agreement::X25519,
        &rng,
    ).map_err(|_| Error::Crypto(String::from_str("key generation failed")))?;
    let public_key = private_key.compute_public_key().map_err(
        |_| Error::Crypto(String::from_str("public key computation failed")),
    )?;
    let peer = ring::agreement::UnparsedPublicKey::new(&ring::agreement::X25519, peer_public_key);
    let shared = ring::agreement::agree_ephemeral(private_key, &peer, |secret| secret.to_vec())
        .map_err(|_| Error::Crypto(String::from_str("key agreement failed")))?;
    Ok((shared, public_key.as_ref().to_vec()))
}

/// Relies on `ring::agreement` with `X25519`: a fresh ephemeral keypair's
/// 32-byte public value. The key is random, so the value is not stated.
#[verifier::external_body]
fn x25519_generate_public() -> (r: Result<Vec<u8>, Error>)
    ensures
        r matches Ok(v) ==> v@.len() == 32,
        r matches Err(e) ==> e is Crypto,
{
    let rng = ring::rand::SystemRandom::new();
    let private_key = ring::agreement::EphemeralPrivateKey::generate(
        &ring::agreement::X25519,
        &rng,
    ).map_err(|_| Error::Crypto(String::from_str("key generation failed")))?;
    let public_key = private_key.compute_public_key().map_err(
        |_| Error::Crypto(String::from_str("public key computation failed")),
    )?;
    Ok(public_key.as_ref().to_vec())
}

/// The keyed BLAKE3 digest of a byte sequence under a 32-byte key.
pub uninterp spec fn blake3_keyed_of(key: Seq<u8>, data: Seq<u8>) -> Seq<u8>;

/// Relies on `blake3::keyed_hash`: a 32-byte digest that depends on the key
/// and input bytes alone.
#[verifier::external_body]
pub fn blake3_keyed_hash(key: &[u8], data: &[u8]) -> (r: Vec<u8>)
    requires
        key@.len() == 32,
    ensures
        r@ == blake3_keyed_of(key@, data@),
        r@.len() == 32,
{
    let key_arr: [u8; 32] = key.try_into().expect("the key is 32 bytes by contract");
    blake3::keyed_hash(&key_arr, data).as_bytes().to_vec()
}

/// The 32-byte HKDF-SHA256 output for a secret, salt and info.
pub uninterp spec fn hkdf_sha256_of(secret: Seq<u8>, salt: Seq<u8>, info: Seq<u8>) -> Seq<u8>;

/// Relies on `ring::hkdf` with `HKDF_SHA256` (`Salt::new`, `Salt::extract`,
/// `Prk::expand`, `Okm::fill`): 32 bytes of output keying material that
/// depend on the secret, salt and info alone.
#[verifier::external_body]
fn hkdf_sha256_derive(secret: &[u8], salt: &[u8], info: &[u8]) -> (r: Vec<u8>)
    ensures
        r@ == hkdf_sha256_of(secret@, salt@, info@),
        r@.len() == 32,
{
    let prk = ring::hkdf::Salt::new(ring::hkdf::HKDF_SHA256, salt).extract(secret);
    let info_parts = [info];
    let okm = prk.expand(&info_parts, ring::hkdf::HKDF_SHA256).expect(
        "one hash block is always expandable",
    );
    let mut out = [0u8; 32];
    okm.fill(&mut out).expect("the output buffer matches the key type");
    out.to_vec()
}

/// Domain-separation label under which session keys are derived.
pub const SESSION_KEY_SALT: [u8; 8] = [0x6c, 0x73, 0x66, 0x74, 0x70, 0x20, 0x76, 0x31];

/// Domain-separation label under which rotated keys are derived.
pub const REKEY_SALT: [u8; 5] = [0x72, 0x65, 0x6b, 0x65, 0x79];

/// The four session subkeys both peers derive at the end of the handshake.
pub struct SessionKeys {
    /// Data key for the sending direction.
    pub tx_data: Vec<u8>,
    /// Data key for the receiving direction.
    pub rx_data: Vec<u8>,
    /// Authentication key for the sending direction.
    pub tx_mac: Vec<u8>,
    /// Authentication key for the receiving direction.
    pub rx_mac: Vec<u8>,
}

/// The info bytes of one session subkey: the transcript hash followed by
/// the subkey's index.
pub open spec fn spec_subkey_info(transcript_hash: Seq<u8>, index: u8) -> Seq<u8> {
    transcript_hash + seq![index]
}

/// Derive the four session subkeys from the negotiated shared secret and
/// the transcript hash: each is the HKDF-SHA256 output for the shared
/// secret under the session-key label, with the transcript hash and the
/// subkey's index as info. All four are 32 bytes and pairwise
/// distinguished by their index.
pub fn derive_session_keys(shared_secret: &[u8], transcript_hash: &[u8]) -> (r: SessionKeys)
    ensures
        r.tx_data@ == hkdf_sha256_of(
            shared_secret@,
            SESSION_KEY_SALT@,
            spec_subkey_info(transcript_hash@, 0),
        ),
        r.rx_data@ == hkdf_sha256_of(
            shared_secret@,
            SESSION_KEY_SALT@,
            spec_subkey_info(transcript_hash@, 1),
        ),
        r.tx_mac@ == hkdf_sha256_of(
            shared_secret@,
            SESSION_KEY_SALT@,
            spec_subkey_info(transcript_hash@, 2),
        ),
        r.rx_mac@ == hkdf_sha256_of(
            shared_secret@,
            SESSION_KEY_SALT@,
            spec_subkey_info(transcript_hash@, 3),
        ),
        r.tx_data@.len() == 32 && r.rx_data@.len() == 32 && r.tx_mac@.len() == 32
            && r.rx_mac@.len() == 32,
{
    let salt = SESSION_KEY_SALT;
    let tx_data = hkdf_sha256_derive(shared_secret, salt.as_slice(), subkey_info(
        transcript_hash,
        0,
    ).as_slice());
    let rx_data = hkdf_sha256_derive(shared_secret, salt.as_slice(), subkey_info(
        transcript_hash,
        1,
    ).as_slice());
    let tx_mac = hkdf_sha256_derive(shared_secret, salt.as_slice(), subkey_info(
        transcript_hash,
        2,
    ).as_slice());
    let rx_mac = hkdf_sha256_derive(shared_secret, salt.as_slice(), subkey_info(
        transcript_hash,
        3,
    ).as_slice());
    SessionKeys { tx_data, rx_data, tx_mac, rx_mac }
}

/// Build one subkey's info bytes.
fn subkey_info(transcript_hash: &[u8], index: u8) -> (r: Vec<u8>)
    ensures
        r@ == spec_subkey_info(transcript_hash@, index),
{
    let mut info: Vec<u8> = Vec::new();
    push_bytes(&mut info, transcript_hash);
    info.push(index);
    proof {
        assert(info@ =~= spec_subkey_info(transcript_hash@, index));
    }
    info
}

/// Derive the next key generation from the previous subkey and the
/// generation counter, under the rekey label.
pub fn derive_rekey(previous_key: &[u8], counter: u64) -> (r: Vec<u8>)
    ensures
        r@ == hkdf_sha256_of(previous_key@, REKEY_SALT@, crate::protocol::u64_be(counter)),
        r@.len() == 32,
{
    let mut info: Vec<u8> = Vec::new();
    crate::protocol::push_u64_be(&mut info, counter);
    let salt = REKEY_SALT;
    hkdf_sha256_derive(previous_key, salt.as_slice(), info.as_slice())
}

/// Relies on `zeroize::Zeroize` for `Vec<u8>`: overwrites the buffer with
/// zeroes, then clears it.
#[verifier::external_body]
fn zeroize_bytes(v: &mut Vec<u8>)
    ensures
        final(v)@.len() == 0,
{
    zeroize::Zeroize::zeroize(v);
}

/// A private key: the algorithm it belongs to, the secret bytes, and the
/// creation time. The secret is overwritten and dropped by [`PrivateKey::
/// destroy`]; pinning its pages in memory is platform work done by the
/// embedding application before the bytes are handed in.
#[derive(Debug)]
pub struct PrivateKey {
    pub algorithm: KemAlgorithm,
    pub key_material: Vec<u8>,
    pub created_at: u64,
}

impl PrivateKey {
    /// Wrap secret bytes for an algorithm, stamped with the current time.
    pub fn new(algorithm: KemAlgorithm, material: Vec<u8>) -> (r: Result<Self, Error>)
        ensures
            r matches Ok(k) && k.algorithm == algorithm && k.key_material@ == material@,
    {
        Ok(PrivateKey { algorithm, key_material: material, created_at: now_unix_seconds() })
    }

    /// Generate key material. Only the classical algorithm has a linked
    /// backend in this build; the post-quantum algorithms report a crypto
    /// error.
    pub fn generate(algorithm: KemAlgorithm) -> (r: Result<Self, Error>)
        ensures
            r matches Ok(k) ==> k.algorithm == algorithm && k.key_material@.len() == 32,
            algorithm != KemAlgorithm::EcdheP256 ==> (r matches Err(e) && e is Crypto),
            r matches Err(e) ==> e is Crypto,
    {
        match algorithm {
            KemAlgorithm::EcdheP256 => {
                let material = x25519_generate_public()?;
                Ok(PrivateKey { algorithm, key_material: material, created_at: now_unix_seconds() })
            },
            _ => Err(
                Error::Crypto(String::from_str("post-quantum key generation backend unavailable")),
            ),
        }
    }

    /// Overwrite the secret bytes with zeroes and drop them.
    pub fn destroy(&mut self)
        ensures
            final(self).key_material@.len() == 0,
            final(self).algorithm == old(self).algorithm,
            final(self).created_at == old(self).created_at,
    {
        zeroize_bytes(&mut self.key_material);
    }
}

/// Whether a hybrid signature blob is accepted: it splits into a 64-byte
/// classical part that verifies under the first 32 bytes of the public key,
/// and the post-quantum component's verdict holds.
pub open spec fn spec_hybrid_signature_valid(
    msg: Seq<u8>,
    sig: Seq<u8>,
    pk: Seq<u8>,
    pq_ok: bool,
) -> bool {
    &&& sig.len() >= ED25519_SIGNATURE_LEN
    &&& pk.len() >= ED25519_PUBLIC_KEY_LEN
    &&& ed25519_verifies(
        msg,
        sig.take(ED25519_SIGNATURE_LEN as int),
        pk.take(ED25519_PUBLIC_KEY_LEN as int),
    )
    &&& pq_ok
}

/// A hybrid signature is accepted only if its classical component verifies
/// and its post-quantum component verifies: either failure alone refutes it.
pub proof fn lemma_hybrid_verify_implies_components(
    msg: Seq<u8>,
    sig: Seq<u8>,
    pk: Seq<u8>,
    pq_ok: bool,
)
    requires
        spec_hybrid_signature_valid(msg, sig, pk, pq_ok),
    ensures
        ed25519_verifies(
            msg,
            sig.take(ED25519_SIGNATURE_LEN as int),
            pk.take(ED25519_PUBLIC_KEY_LEN as int),
        ),
        pq_ok,
{
}

/// Split a hybrid signature blob into its classical and post-quantum parts.
/// Fails with a crypto error exactly when the blob is shorter than a
/// classical signature.
pub fn split_hybrid_signature(signature: &[u8]) -> (r: Result<(Vec<u8>, Vec<u8>), Error>)
    ensures
        r is Ok <==> signature@.len() >= ED25519_SIGNATURE_LEN,
        r matches Ok(p) ==> p.0@ == signature@.take(ED25519_SIGNATURE_LEN as int) && p.1@
            == signature@.skip(ED25519_SIGNATURE_LEN as int),
        r matches Err(e) ==> e is Crypto,
{
    if signature.len() < ED25519_SIGNATURE_LEN {
        return Err(Error::Crypto(String::from_str("hybrid signature too short")));
    }
    let classical = crate::util::sub_bytes(signature, 0, ED25519_SIGNATURE_LEN);
    let pq = crate::util::sub_bytes(signature, ED25519_SIGNATURE_LEN, signature.len());
    proof {
        assert(signature@.subrange(0, ED25519_SIGNATURE_LEN as int) =~= signature@.take(
            ED25519_SIGNATURE_LEN as int,
        ));
        assert(signature@.subrange(ED25519_SIGNATURE_LEN as int, signature@.len() as int)
            =~= signature@.skip(ED25519_SIGNATURE_LEN as int));
    }
    Ok((classical, pq))
}

/// Split a hybrid public-key blob into its classical and post-quantum
/// parts. Fails with a crypto error exactly when the blob is shorter than a
/// classical public key.
pub fn split_hybrid_public_key(public_key: &[u8]) -> (r: Result<(Vec<u8>, Vec<u8>), Error>)
    ensures
        r is Ok <==> public_key@.len() >= ED25519_PUBLIC_KEY_LEN,
        r matches Ok(p) ==> p.0@ == public_key@.take(ED25519_PUBLIC_KEY_LEN as int) && p.1@
            == public_key@.skip(ED25519_PUBLIC_KEY_LEN as int),
        r matches Err(e) ==> e is Crypto,
{
    if public_key.len() < ED25519_PUBLIC_KEY_LEN {
        return Err(Error::Crypto(String::from_str("hybrid public key too short")));
    }
    let classical = crate::util::sub_bytes(public_key, 0, ED25519_PUBLIC_KEY_LEN);
    let pq = crate::util::sub_bytes(public_key, ED25519_PUBLIC_KEY_LEN, public_key.len());
    proof {
        assert(public_key@.subrange(0, ED25519_PUBLIC_KEY_LEN as int) =~= public_key@.take(
            ED25519_PUBLIC_KEY_LEN as int,
        ));
        assert(public_key@.subrange(ED25519_PUBLIC_KEY_LEN as int, public_key@.len() as int)
            =~= public_key@.skip(ED25519_PUBLIC_KEY_LEN as int));
    }
    Ok((classical, pq))
}

/// Verify a hybrid signature blob. The classical half is checked here
/// through the Ed25519 backend; the post-quantum component's verdict comes
/// from the ML-DSA backend outside the library and enters as an argument.
/// The blob is accepted only if both hold.
pub fn verify_hybrid_signature(
    message: &[u8],
    signature: &[u8],
    public_key: &[u8],
    pq_component_ok: bool,
) -> (r: Result<bool, Error>)
    ensures
        r is Ok <==> signature@.len() >= ED25519_SIGNATURE_LEN && public_key@.len()
            >= ED25519_PUBLIC_KEY_LEN,
        r matches Ok(b) ==> b == spec_hybrid_signature_valid(
            message@,
            signature@,
            public_key@,
            pq_component_ok,
        ),
        r matches Err(e) ==> e is Crypto,
{
    let (classical_sig, _pq_sig) = split_hybrid_signature(signature)?;
    let (classical_pk, _pq_pk) = split_hybrid_public_key(public_key)?;
    let classical_ok = ed25519_verify(message, classical_sig.as_slice(), classical_pk.as_slice());
    Ok(classical_ok && pq_component_ok)
}

/// Concatenate a classical and a post-quantum signature into the hybrid
/// form: classical bytes first, then the post-quantum bytes, for both the
/// signature and the public key.
pub fn combine_hybrid_signatures(classical: Signature, pq: Signature) -> (r: Signature)
    ensures
        r.signature@ == classical.signature@ + pq.signature@,
        r.public_key@ == classical.public_key@ + pq.public_key@,
        r.algorithm == SignatureAlgorithm::HybridEd25519MlDsa65,
{
    let mut signature = classical.signature;
    push_bytes(&mut signature, pq.signature.as_slice());
    let mut public_key = classical.public_key;
    push_bytes(&mut public_key, pq.public_key.as_slice());
    Signature { signature, public_key, algorithm: SignatureAlgorithm::HybridEd25519MlDsa65 }
}

/// Concatenate a classical and a post-quantum key exchange into the hybrid
/// form: both shared secrets and both public values, classical first. A
/// hybrid secret is compromised only if both components are broken.
pub fn combine_key_exchanges(classical: KeyExchange, pq: KeyExchange) -> (r: KeyExchange)
    ensures
        r.shared_secret@ == classical.shared_secret@ + pq.shared_secret@,
        r.public_key@ == classical.public_key@ + pq.public_key@,
        r.algorithm == KemAlgorithm::HybridEcdheP256MlKem768,
{
    let mut shared_secret = classical.shared_secret;
    push_bytes(&mut shared_secret, pq.shared_secret.as_slice());
    let mut public_key = classical.public_key;
    push_bytes(&mut public_key, pq.public_key.as_slice());
    KeyExchange { shared_secret, public_key, algorithm: KemAlgorithm::HybridEcdheP256MlKem768 }
}

/// Concatenate classical and post-quantum secret key material into the
/// hybrid form: classical bytes first, then the post-quantum bytes, under
/// the hybrid algorithm tag. The creation time of the classical part is
/// kept.
pub fn combine_hybrid_key_material(classical: PrivateKey, pq_material: Vec<u8>) -> (r: PrivateKey)
    ensures
        r.key_material@ == classical.key_material@ + pq_material@,
        r.algorithm == KemAlgorithm::HybridEcdheP256MlKem768,
        r.created_at == classical.created_at,
{
    let mut key_material = classical.key_material;
    push_bytes(&mut key_material, pq_material.as_slice());
    PrivateKey {
        algorithm: KemAlgorithm::HybridEcdheP256MlKem768,
        key_material,
        created_at: classical.created_at,
    }
}

impl CryptoSuite {
    /// Hash bytes with the suite's hash algorithm; both choices give a
    /// 32-byte digest.
    pub fn hash(&self, data: &[u8]) -> (r: Result<Vec<u8>, Error>)
        ensures
            r matches Ok(h) && h@.len() == 32,
            r matches Ok(h) ==> h@ == (if self.hash == HashAlgorithm::Blake3 {
                blake3_of(data@)
            } else {
                sha3_256_of(data@)
            }),
    {
        match self.hash {
            HashAlgorithm::Blake3 => Ok(blake3_hash(data)),
            HashAlgorithm::Sha3256 => Ok(sha3_256_hash(data)),
        }
    }

    /// Seal a plaintext with the suite's AEAD under the given 32-byte key
    /// and 12-byte nonce, with empty associated data; the result carries a
    /// 16-byte tag.
    pub fn encrypt(&self, plaintext: &[u8], key: &[u8], nonce: &[u8]) -> (r: Result<Vec<u8>, Error>)
        requires
            key@.len() == 32,
            nonce@.len() == 12,
            plaintext@.len() <= 0xFFFF_FFFF,
        ensures
            r matches Ok(c) && c@.len() == plaintext@.len() + 16,
            r matches Ok(c) ==> c@ == (if self.aead == AeadAlgorithm::ChaCha20Poly1305 {
                chacha_seal(key@, nonce@, plaintext@)
            } else {
                aes_gcm_seal(key@, nonce@, plaintext@)
            }),
            r matches Ok(c) ==> (if self.aead == AeadAlgorithm::ChaCha20Poly1305 {
                chacha_open(key@, nonce@, c@)
            } else {
                aes_gcm_open(key@, nonce@, c@)
            }) == Some(plaintext@),
    {
        match self.aead {
            AeadAlgorithm::ChaCha20Poly1305 => Ok(chacha20poly1305_seal(key, nonce, plaintext)),
            AeadAlgorithm::Aes256Gcm => Ok(aes256gcm_seal(key, nonce, plaintext)),
        }
    }

    /// Open a sealed ciphertext with the suite's AEAD. Succeeds exactly
    /// when the tag authenticates; in particular, opening the sealing of any
    /// plaintext under the same key and nonce returns that plaintext.
    pub fn decrypt(&self, ciphertext: &[u8], key: &[u8], nonce: &[u8]) -> (r: Result<
        Vec<u8>,
        Error,
    >)
        requires
            key@.len() == 32,
            nonce@.len() == 12,
        ensures
            self.aead == AeadAlgorithm::ChaCha20Poly1305 ==> {
                &&& r is Ok <==> chacha_open(key@, nonce@, ciphertext@) is Some
                &&& (r matches Ok(p) ==> chacha_open(key@, nonce@, ciphertext@) == Some(p@))
            },
            self.aead == AeadAlgorithm::Aes256Gcm ==> {
                &&& r is Ok <==> aes_gcm_open(key@, nonce@, ciphertext@) is Some
                &&& (r matches Ok(p) ==> aes_gcm_open(key@, nonce@, ciphertext@) == Some(p@))
            },
            r matches Ok(p) ==> p@.len() + 16 == ciphertext@.len(),
            r matches Err(e) ==> e is Crypto,
    {
        match self.aead {
            AeadAlgorithm::ChaCha20Poly1305 => chacha20poly1305_open(key, nonce, ciphertext),
            AeadAlgorithm::Aes256Gcm => aes256gcm_open(key, nonce, ciphertext),
        }
    }

    /// Sign a message with the suite's signature algorithm. Only the
    /// classical algorithm has a linked backend in this build: it returns a
    /// 64-byte signature that verifies under the returned 32-byte public
    /// key. For the other algorithms the post-quantum component is produced
    /// outside the library and combined with [`combine_hybrid_signatures`];
    /// here they report a crypto error.
    pub fn sign(&self, message: &[u8]) -> (r: Result<Signature, Error>)
        ensures
            self.signature == SignatureAlgorithm::Ed25519 ==> (r matches Ok(s) ==> s.algorithm
                == SignatureAlgorithm::Ed25519 && s.signature@.len() == 64 && s.public_key@.len()
                == 32 && ed25519_verifies(message@, s.signature@, s.public_key@)),
            self.signature != SignatureAlgorithm::Ed25519 ==> (r matches Err(e) && e is Crypto),
            r matches Err(e) ==> e is Crypto,
    {
        match self.signature {
            SignatureAlgorithm::Ed25519 => {
                let (sig, pk) = ed25519_sign_fresh(message)?;
                Ok(
                    Signature {
                        signature: sig,
                        public_key: pk,
                        algorithm: SignatureAlgorithm::Ed25519,
                    },
                )
            },
            _ => Err(Error::Crypto(String::from_str("post-quantum signature backend unavailable"))),
        }
    }

    /// Verify a classical signature. For the algorithms with a post-quantum
    /// component, use [`verify_hybrid_signature`] with the component's
    /// verdict; here they report a crypto error.
    pub fn verify(&self, message: &[u8], signature: &[u8], public_key: &[u8]) -> (r: Result<
        bool,
        Error,
    >)
        ensures
            self.signature == SignatureAlgorithm::Ed25519 ==> (r matches Ok(b) && b
                == ed25519_verifies(message@, signature@, public_key@)),
            self.signature != SignatureAlgorithm::Ed25519 ==> (r matches Err(e) && e is Crypto),
    {
        match self.signature {
            SignatureAlgorithm::Ed25519 => Ok(ed25519_verify(message, signature, public_key)),
            _ => Err(
                Error::Crypto(String::from_str("post-quantum verification backend unavailable")),
            ),
        }
    }

    /// Run the suite's key exchange against a peer public value. Only the
    /// classical algorithm has a linked backend in this build: it yields a
    /// 32-byte shared secret and our 32-byte public value. The hybrid form
    /// is assembled with [`combine_key_exchanges`] from a classical and a
    /// post-quantum component; the algorithms with a post-quantum component
    /// report a crypto error here.
    pub fn perform_key_exchange(&self, peer_public_key: &[u8]) -> (r: Result<KeyExchange, Error>)
        ensures
            self.kem == KemAlgorithm::EcdheP256 ==> (r matches Ok(k) ==> k.algorithm
                == KemAlgorithm::EcdheP256 && k.shared_secret@.len() == 32 && k.public_key@.len()
                == 32),
            self.kem != KemAlgorithm::EcdheP256 ==> (r matches Err(e) && e is Crypto),
            r matches Err(e) ==> e is Crypto,
    {
        match self.kem {
            KemAlgorithm::EcdheP256 => {
                let (shared_secret, public_key) = x25519_key_exchange(peer_public_key)?;
                Ok(KeyExchange { shared_secret, public_key, algorithm: KemAlgorithm::EcdheP256 })
            },
            _ => Err(
                Error::Crypto(String::from_str("post-quantum key exchange backend unavailable")),
            ),
        }
    }
}

} // verus!
