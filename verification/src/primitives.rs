//! Trusted boundary to the cryptographic crates and to the sources of
//! randomness and time.
//!
//! Each `uninterp` spec function names the result of one outside function:
//! the result is a pure function of the arguments, too complex to state, so
//! contracts elsewhere in the crate speak of it by name.  Each executable
//! wrapper is `external_body`: its contract is believed, not proved, and is
//! checked by reading the outside crate's source.

use vstd::prelude::*;
use ed25519_dalek::Signer;
use ed25519_dalek::Verifier;
use chacha20poly1305::aead::Aead;
use chacha20poly1305::aead::KeyInit;

verus! {

/// The Ed25519 public key derived from a 32-byte seed.
pub uninterp spec fn ed25519_pub_of(seed: Seq<u8>) -> Seq<u8>;

/// The deterministic Ed25519 signature over `msg` by the key with seed `seed`.
pub uninterp spec fn ed25519_sign_of(seed: Seq<u8>, msg: Seq<u8>) -> Seq<u8>;

/// Whether 32 bytes are a well-formed Ed25519 public key.
pub uninterp spec fn ed25519_pk_valid(pk: Seq<u8>) -> bool;

/// The result of Ed25519 signature verification.
pub uninterp spec fn ed25519_verifies(pk: Seq<u8>, msg: Seq<u8>, sig: Seq<u8>) -> bool;

/// The X25519 public key derived from 32 secret bytes.
pub uninterp spec fn x25519_pub_of(secret: Seq<u8>) -> Seq<u8>;

/// The X25519 shared secret between a secret key and a peer public key.
pub uninterp spec fn x25519_shared_of(secret: Seq<u8>, pk: Seq<u8>) -> Seq<u8>;

/// The 32 bytes of HKDF-SHA256 output for the given salt, input keying
/// material and info string.
pub uninterp spec fn hkdf_sha256_of(salt: Option<Seq<u8>>, ikm: Seq<u8>, info: Seq<u8>) -> Seq<u8>;

/// ChaCha20-Poly1305 ciphertext (with appended tag) for key, nonce and plaintext.
pub uninterp spec fn chacha_seal_of(key: Seq<u8>, nonce: Seq<u8>, pt: Seq<u8>) -> Seq<u8>;

/// The result of ChaCha20-Poly1305 decryption: the plaintext, or `None` when
/// authentication fails or the ciphertext is malformed.
pub uninterp spec fn chacha_open_of(key: Seq<u8>, nonce: Seq<u8>, ct: Seq<u8>) -> Option<Seq<u8>>;

/// The cipher refuses plaintexts of 2^32 - 1 blocks of 64 bytes or more;
/// anything shorter encrypts.
pub const CHACHA_MAX_PLAINTEXT: u64 = 274877906880;

/// Relies on rand's `OsRng` (`RngCore::fill_bytes`): `n` bytes from the
/// operating system's CSPRNG.  Nothing is assumed of their values.
#[verifier::external_body]
pub(crate) fn os_random_bytes(n: usize) -> (r: Vec<u8>)
    ensures
        r@.len() == n,
{
    let mut buf = vec![0u8; n];
    rand::RngCore::fill_bytes(&mut rand::rngs::OsRng, &mut buf);
    buf
}

/// Relies on `ed25519_dalek::SigningKey::{from_bytes, verifying_key}`: the
/// Ed25519 public key is a deterministic function of the 32-byte seed and is
/// 32 bytes long.
#[verifier::external_body]
pub(crate) fn ed25519_public_key(seed: &[u8]) -> (r: Vec<u8>)
    requires
        seed@.len() == 32,
    ensures
        r@ == ed25519_pub_of(seed@),
        r@.len() == 32,
{
    let seed32: [u8; 32] = seed.try_into().unwrap();
    let sk = ed25519_dalek::SigningKey::from_bytes(&seed32);
    sk.verifying_key().as_bytes().to_vec()
}

/// Relies on `ed25519_dalek::Signer::sign` for `SigningKey`: Ed25519 signing
/// is deterministic, a function of the seed and the message alone, and
/// produces 64 bytes.
#[verifier::external_body]
pub(crate) fn ed25519_sign(seed: &[u8], msg: &[u8]) -> (r: Vec<u8>)
    requires
        seed@.len() == 32,
    ensures
        r@ == ed25519_sign_of(seed@, msg@),
        r@.len() == 64,
{
    let seed32: [u8; 32] = seed.try_into().unwrap();
    let sk = ed25519_dalek::SigningKey::from_bytes(&seed32);
    sk.sign(msg).to_bytes().to_vec()
}

/// Relies on `ed25519_dalek::VerifyingKey::{from_bytes, verify}` and
/// `Signature::from_bytes`: `from_bytes` fails exactly when the 32 bytes are
/// not a well-formed public key, and verification is a deterministic function
/// of key, message and signature.  A key derived from a seed is well-formed,
/// and a signature made with that seed over the same message verifies.
#[verifier::external_body]
pub(crate) fn ed25519_verify(pk: &[u8], msg: &[u8], sig: &[u8]) -> (r: Result<bool, ()>)
    requires
        pk@.len() == 32,
        sig@.len() == 64,
    ensures
        r is Ok <==> ed25519_pk_valid(pk@),
        r matches Ok(b) ==> b == ed25519_verifies(pk@, msg@, sig@),
        forall|seed: Seq<u8>| pk@ == ed25519_pub_of(seed) ==> r is Ok,
        forall|seed: Seq<u8>|
            pk@ == ed25519_pub_of(seed) && sig@ == ed25519_sign_of(seed, msg@) ==> r is Ok
                && r->Ok_0 == true,
{
    let pk32: [u8; 32] = pk.try_into().unwrap();
    let vk = match ed25519_dalek::VerifyingKey::from_bytes(&pk32) {
        Ok(k) => k,
        Err(_) => {
            return Err(());
        },
    };
    let sig64: [u8; 64] = sig.try_into().unwrap();
    let s = ed25519_dalek::Signature::from_bytes(&sig64);
    Ok(vk.verify(msg, &s).is_ok())
}

/// Relies on `x25519_dalek::PublicKey::from(&StaticSecret)`: the X25519
/// public key is a deterministic function of the 32 secret bytes and is 32
/// bytes long.
#[verifier::external_body]
pub(crate) fn x25519_public_key(secret: &[u8]) -> (r: Vec<u8>)
    requires
        secret@.len() == 32,
    ensures
        r@ == x25519_pub_of(secret@),
        r@.len() == 32,
{
    let s32: [u8; 32] = secret.try_into().unwrap();
    let sk = x25519_dalek::StaticSecret::from(s32);
    x25519_dalek::PublicKey::from(&sk).as_bytes().to_vec()
}

/// Relies on `x25519_dalek::StaticSecret::diffie_hellman`: the shared secret
/// is a deterministic function of the secret and the peer public key, 32
/// bytes long; and on the X25519 key agreement property, by which the two
/// sides of an exchange compute the same secret.
#[verifier::external_body]
pub(crate) fn x25519_diffie_hellman(secret: &[u8], peer_public: &[u8]) -> (r: Vec<u8>)
    requires
        secret@.len() == 32,
        peer_public@.len() == 32,
    ensures
        r@ == x25519_shared_of(secret@, peer_public@),
        r@.len() == 32,
        forall|other: Seq<u8>|
            peer_public@ == x25519_pub_of(other) ==> r@ == x25519_shared_of(
                other,
                x25519_pub_of(secret@),
            ),
{
    let s32: [u8; 32] = secret.try_into().unwrap();
    let p32: [u8; 32] = peer_public.try_into().unwrap();
    let sk = x25519_dalek::StaticSecret::from(s32);
    let pk = x25519_dalek::PublicKey::from(p32);
    sk.diffie_hellman(&pk).as_bytes().to_vec()
}

/// Relies on `hkdf::Hkdf::<sha2::Sha256>::{new, expand}`: 32 bytes of output
/// keying material, a deterministic function of salt, input keying material
/// and info; expansion to 32 bytes is within the HKDF output limit and
/// cannot fail.
#[verifier::external_body]
pub(crate) fn hkdf_sha256_32(salt: Option<&[u8]>, ikm: &[u8], info: &[u8]) -> (r: Vec<u8>)
    ensures
        r@.len() == 32,
        r@ == hkdf_sha256_of(
            match salt {
                Some(s) => Some(s@),
                None => None,
            },
            ikm@,
            info@,
        ),
{
    let hk = hkdf::Hkdf::<sha2::Sha256>::new(salt, ikm);
    let mut okm = [0u8; 32];
    hk.expand(info, &mut okm).unwrap();
    okm.to_vec()
}

/// Relies on `chacha20poly1305::ChaCha20Poly1305` (`Aead::encrypt`): the
/// ciphertext with appended 16-byte tag is a deterministic function of key,
/// nonce and plaintext, and encryption fails exactly when the plaintext
/// reaches the cipher's block-count limit.
#[verifier::external_body]
pub(crate) fn chacha20poly1305_seal(key: &[u8], nonce: &[u8], plaintext: &[u8]) -> (r: Result<
    Vec<u8>,
    (),
>)
    requires
        key@.len() == 32,
        nonce@.len() == 12,
    ensures
        r is Ok <==> plaintext@.len() < CHACHA_MAX_PLAINTEXT,
        r matches Ok(ct) ==> ct@ == chacha_seal_of(key@, nonce@, plaintext@) && ct@.len()
            == plaintext@.len() + 16,
{
    let cipher = chacha20poly1305::ChaCha20Poly1305::new_from_slice(key).unwrap();
    let n = chacha20poly1305::Nonce::from_slice(nonce);
    cipher.encrypt(n, plaintext).map_err(|_| ())
}

/// Relies on `chacha20poly1305::ChaCha20Poly1305` (`Aead::decrypt`): the
/// result is a deterministic function of key, nonce and ciphertext; and on
/// AEAD correctness, by which opening a sealed ciphertext under the same key
/// and nonce returns the sealed plaintext.
#[verifier::external_body]
pub(crate) fn chacha20poly1305_open(key: &[u8], nonce: &[u8], ciphertext: &[u8]) -> (r: Result<
    Vec<u8>,
    (),
>)
    requires
        key@.len() == 32,
        nonce@.len() == 12,
    ensures
        r matches Ok(pt) ==> chacha_open_of(key@, nonce@, ciphertext@) == Some(pt@),
        r is Err ==> chacha_open_of(key@, nonce@, ciphertext@) is None,
        forall|pt: Seq<u8>|
            ciphertext@ == chacha_seal_of(key@, nonce@, pt) && pt.len() < CHACHA_MAX_PLAINTEXT
                ==> r is Ok && r->Ok_0@ == pt,
{
    let cipher = chacha20poly1305::ChaCha20Poly1305::new_from_slice(key).unwrap();
    let n = chacha20poly1305::Nonce::from_slice(nonce);
    cipher.decrypt(n, ciphertext).map_err(|_| ())
}

/// Relies on `uuid::Uuid::new_v4` and its hyphenated `Display` form: a fresh
/// random identifier rendered as 36 characters.
#[verifier::external_body]
pub(crate) fn new_uuid_string() -> (r: String)
    ensures
        r@.len() == 36,
{
    uuid::Uuid::new_v4().to_string()
}

/// Relies on `chrono::Utc::now` and `DateTime::timestamp`: the current time
/// in whole seconds since the Unix epoch.  Nothing is assumed of the value.
#[verifier::external_body]
pub(crate) fn unix_now() -> i64 {
    chrono::Utc::now().timestamp()
}

} // verus!
