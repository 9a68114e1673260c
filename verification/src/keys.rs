//! The node identity: a single 32-byte Ed25519 seed from which both the
//! signing key and the X25519 encryption key are derived, together with the
//! printable ledger id.

use vstd::prelude::*;
use vstd::string::*;
use vstd::slice::slice_to_vec;
use vstd::utf8::encode_utf8;
use crate::errors::LedgerError;
use crate::encoding::{base58_of, base58_val_of, bs58_encode, bs58_decode};
use crate::primitives::{
    ed25519_pub_of, ed25519_sign_of, ed25519_pk_valid, ed25519_verifies, x25519_pub_of,
    hkdf_sha256_of, ed25519_public_key, ed25519_sign, ed25519_verify, x25519_public_key,
    hkdf_sha256_32, os_random_bytes,
};
use crate::strutil::{has_prefix, str_starts_with};

verus! {

/// The X25519 secret derived from an Ed25519 seed: HKDF-SHA256 with salt
/// `ledger-x25519` and info `encryption-key` over the seed.
pub open spec fn encryption_secret_of(seed: Seq<u8>) -> Seq<u8> {
    hkdf_sha256_of(Some(encode_utf8("ledger-x25519"@)), seed, encode_utf8("encryption-key"@))
}

/// The printable identity derived from an Ed25519 public key.
pub open spec fn ledger_id_of(pk: Seq<u8>) -> Seq<char> {
    "ledger:"@ + base58_of(pk)
}

/// Holds both the signing (Ed25519) and the encryption (X25519) key
/// material.  The 32-byte `signing_key` seed is the only secret that is
/// ever persisted; everything else is derived from it.
pub struct LedgerIdentity {
    pub signing_key: Vec<u8>,
    pub verifying_key: Vec<u8>,
    pub encryption_secret: Vec<u8>,
    pub encryption_public: Vec<u8>,
    pub ledger_id: String,
}

impl LedgerIdentity {
    /// Every field is the prescribed derivation from the 32-byte seed.
    pub open spec fn wf(&self) -> bool {
        &&& self.signing_key@.len() == 32
        &&& self.verifying_key@ == ed25519_pub_of(self.signing_key@)
        &&& self.verifying_key@.len() == 32
        &&& self.encryption_secret@ == encryption_secret_of(self.signing_key@)
        &&& self.encryption_secret@.len() == 32
        &&& self.encryption_public@ == x25519_pub_of(self.encryption_secret@)
        &&& self.encryption_public@.len() == 32
        &&& self.ledger_id@ == ledger_id_of(self.verifying_key@)
    }

    /// Derives the full identity from a seed.  Fails exactly when the seed
    /// is not 32 bytes; re-deriving from the same seed yields the same keys,
    /// since every field is a function of the seed.
    pub fn from_seed(seed: &[u8]) -> (r: Result<Self, LedgerError>)
        ensures
            r is Ok <==> seed@.len() == 32,
            r matches Ok(id) ==> id.wf() && id.signing_key@ == seed@,
            r matches Err(e) ==> e is BadSeed,
    {
        if seed.len() != 32 {
            return Err(LedgerError::BadSeed);
        }
        let verifying_key = ed25519_public_key(seed);
        let salt = "ledger-x25519";
        let info = "encryption-key";
        let encryption_secret = hkdf_sha256_32(Some(salt.as_bytes()), seed, info.as_bytes());
        let encryption_public = x25519_public_key(encryption_secret.as_slice());
        let b58 = bs58_encode(verifying_key.as_slice());
        let mut ledger_id = String::from_str("ledger:");
        ledger_id.append(b58.as_str());
        Ok(
            LedgerIdentity {
                signing_key: slice_to_vec(seed),
                verifying_key,
                encryption_secret,
                encryption_public,
                ledger_id,
            },
        )
    }

    /// Generates a fresh identity from the OS CSPRNG.  Always succeeds; the
    /// `Result` mirrors construction from a stored seed.
    pub fn generate() -> (r: Result<Self, LedgerError>)
        ensures
            r is Ok,
            r matches Ok(id) ==> id.wf(),
    {
        let seed = os_random_bytes(32);
        Self::from_seed(seed.as_slice())
    }

    /// Deterministic Ed25519 signature over `data` by this identity.
    pub fn sign(&self, data: &[u8]) -> (r: Vec<u8>)
        requires
            self.wf(),
        ensures
            r@ == ed25519_sign_of(self.signing_key@, data@),
            r@.len() == 64,
    {
        ed25519_sign(self.signing_key.as_slice(), data)
    }

    /// Verifies a signature over `data` against a raw Ed25519 public key.
    /// Fails with `BadKey` on a malformed key, with `BadSig` on a malformed
    /// signature; otherwise returns the verification result.  A signature
    /// honestly made with the seed behind the key always verifies.
    pub fn verify(pubkey_bytes: &[u8], data: &[u8], signature_bytes: &[u8]) -> (r: Result<
        bool,
        LedgerError,
    >)
        ensures
            r is Ok <==> pubkey_bytes@.len() == 32 && signature_bytes@.len() == 64
                && ed25519_pk_valid(pubkey_bytes@),
            r matches Ok(b) ==> b == ed25519_verifies(pubkey_bytes@, data@, signature_bytes@),
            r matches Err(e) ==> (e is BadKey || e is BadSig),
            pubkey_bytes@.len() != 32 ==> (r matches Err(e) && e is BadKey),
            pubkey_bytes@.len() == 32 && signature_bytes@.len() != 64 ==> (r matches Err(e)
                && e is BadSig),
            pubkey_bytes@.len() == 32 && signature_bytes@.len() == 64 && !ed25519_pk_valid(
                pubkey_bytes@,
            ) ==> (r matches Err(e) && e is BadKey),
            forall|seed: Seq<u8>|
                pubkey_bytes@ == ed25519_pub_of(seed) && pubkey_bytes@.len() == 32
                    && signature_bytes@ == ed25519_sign_of(seed, data@)
                    && signature_bytes@.len() == 64 ==> r is Ok && r->Ok_0 == true,
    {
        if pubkey_bytes.len() != 32 {
            return Err(LedgerError::BadKey);
        }
        if signature_bytes.len() != 64 {
            return Err(LedgerError::BadSig);
        }
        match ed25519_verify(pubkey_bytes, data, signature_bytes) {
            Ok(b) => Ok(b),
            Err(_) => Err(LedgerError::BadKey),
        }
    }

    /// The raw Ed25519 public key bytes.
    pub fn public_key_bytes(&self) -> (r: Vec<u8>)
        ensures
            r@ == self.verifying_key@,
    {
        slice_to_vec(self.verifying_key.as_slice())
    }

    /// The raw X25519 public key bytes.
    pub fn encryption_public_bytes(&self) -> (r: Vec<u8>)
        ensures
            r@ == self.encryption_public@,
    {
        slice_to_vec(self.encryption_public.as_slice())
    }

    /// Recovers raw Ed25519 public key bytes from a printable ledger id:
    /// strips the `ledger:` prefix and decodes the base58 remainder.  The
    /// inverse of forming a ledger id: parsing `ledger_id_of(pk)` yields `pk`.
    pub fn pubkey_from_ledger_id(ledger_id: &str) -> (r: Result<Vec<u8>, LedgerError>)
        ensures
            r is Ok <==> has_prefix(ledger_id@, "ledger:"@) && base58_val_of(
                ledger_id@.skip(7),
            ) is Some,
            r matches Ok(v) ==> base58_val_of(ledger_id@.skip(7)) == Some(v@),
            r matches Err(e) ==> e is BadLedgerId,
            forall|pk: Seq<u8>| ledger_id@ == ledger_id_of(pk) ==> r is Ok && r->Ok_0@ == pk,
    {
        proof {
            reveal_strlit("ledger:");
        }
        if !str_starts_with(ledger_id, "ledger:") {
            proof {
                assert forall|pk: Seq<u8>| ledger_id@ != ledger_id_of(pk) by {
                    if ledger_id@ == ledger_id_of(pk) {
                        assert(ledger_id@.take(7) =~= "ledger:"@);
                    }
                }
            }
            return Err(LedgerError::BadLedgerId);
        }
        let rest = ledger_id.substring_char(7, ledger_id.unicode_len());
        proof {
            assert(rest@ =~= ledger_id@.skip(7));
            assert forall|pk: Seq<u8>| ledger_id@ == ledger_id_of(pk) implies rest@ == base58_of(
                pk,
            ) by {
                assert(("ledger:"@ + base58_of(pk)).skip(7) =~= base58_of(pk));
            }
        }
        match bs58_decode(rest) {
            Ok(v) => Ok(v),
            Err(_) => Err(LedgerError::BadLedgerId),
        }
    }
}

/// Identity derivation is deterministic: two well-formed identities built
/// from the same seed carry identical Ed25519 and X25519 public keys, the
/// same encryption secret, and the same ledger id.
pub proof fn lemma_same_seed_same_identity(a: LedgerIdentity, b: LedgerIdentity)
    requires
        a.wf(),
        b.wf(),
        a.signing_key@ == b.signing_key@,
    ensures
        a.verifying_key@ == b.verifying_key@,
        a.encryption_secret@ == b.encryption_secret@,
        a.encryption_public@ == b.encryption_public@,
        a.ledger_id@ == b.ledger_id@,
{
}

} // verus!
