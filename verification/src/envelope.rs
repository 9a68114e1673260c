//! Construction and opening of authenticated encrypted envelopes.
//!
//! An envelope carries a body encrypted under a key agreed between a fresh
//! ephemeral X25519 key and the recipient's static X25519 key, and a sender
//! signature over the ciphertext.  Opening verifies the signature before any
//! decryption is attempted.

use vstd::prelude::*;
use vstd::string::*;
use vstd::utf8::*;
use crate::errors::LedgerError;
use crate::encoding::{
    base64_of, base64_val_of, base58_val_of, base64_encode, base64_decode, bytes_to_string,
};
use crate::keys::{LedgerIdentity, ledger_id_of};
use crate::models::{EncryptedEnvelope, EnvelopeView};
use crate::primitives::{
    ed25519_pub_of, ed25519_sign_of, ed25519_pk_valid, ed25519_verifies, x25519_pub_of,
    x25519_shared_of, hkdf_sha256_of, chacha_seal_of, chacha_open_of, CHACHA_MAX_PLAINTEXT,
    os_random_bytes, x25519_public_key, x25519_diffie_hellman, hkdf_sha256_32,
    chacha20poly1305_seal, chacha20poly1305_open, ed25519_sign, new_uuid_string, unix_now,
};
use crate::strutil::has_prefix;

verus! {

/// The symmetric key of an envelope: HKDF-SHA256 without salt, info
/// `ledger-message-key`, over the X25519 shared secret between the
/// ephemeral secret and the recipient public key.
pub open spec fn message_key_of(eph_secret: Seq<u8>, recipient_pub: Seq<u8>) -> Seq<u8> {
    hkdf_sha256_of(
        None,
        x25519_shared_of(eph_secret, recipient_pub),
        encode_utf8("ledger-message-key"@),
    )
}

/// How a well-formed envelope relates to the secrets that produced it:
/// `env` carries `body` sealed for the holder of the secret behind
/// `recipient_pub`, under ephemeral secret `eph` and nonce `nonce`, and is
/// signed by the holder of `sender_seed` over the ciphertext — never over
/// the plaintext.
pub open spec fn envelope_encrypts(
    env: EnvelopeView,
    sender_seed: Seq<u8>,
    recipient_pub: Seq<u8>,
    body: Seq<char>,
    eph: Seq<u8>,
    nonce: Seq<u8>,
) -> bool {
    let key = message_key_of(eph, recipient_pub);
    let ct = chacha_seal_of(key, nonce, encode_utf8(body));
    &&& eph.len() == 32
    &&& nonce.len() == 12
    &&& x25519_pub_of(eph).len() == 32
    &&& key.len() == 32
    &&& encode_utf8(body).len() < CHACHA_MAX_PLAINTEXT
    &&& ct.len() == encode_utf8(body).len() + 16
    &&& ed25519_pub_of(sender_seed).len() == 32
    &&& ed25519_sign_of(sender_seed, ct).len() == 64
    &&& env.ephemeral_pubkey == base64_of(x25519_pub_of(eph))
    &&& env.nonce == base64_of(nonce)
    &&& env.encrypted_body == base64_of(ct)
    &&& env.signature == base64_of(ed25519_sign_of(sender_seed, ct))
    &&& env.from_ledger_id == ledger_id_of(ed25519_pub_of(sender_seed))
}

/// Some ephemeral secret and nonce witness the envelope relation: `env`
/// carries `body`, sealed for the holder of the secret behind
/// `recipient_pub` and signed by the holder of `sender_seed`.
pub open spec fn envelope_from(
    env: EnvelopeView,
    sender_seed: Seq<u8>,
    recipient_pub: Seq<u8>,
    body: Seq<char>,
) -> bool {
    exists|eph: Seq<u8>, nonce: Seq<u8>| envelope_encrypts(
        env,
        sender_seed,
        recipient_pub,
        body,
        eph,
        nonce,
    )
}

/// Encrypts `plaintext` for the holder of `recipient_encryption_pubkey`.
///
/// A fresh ephemeral key and nonce are drawn from the CSPRNG, so two calls
/// on the same arguments produce different envelopes; what is promised is
/// that some ephemeral secret and nonce witness the envelope relation.
/// Fails exactly when the recipient key is not 32 bytes or the plaintext
/// reaches the cipher's limit.  `to_ledger_id` is left empty for the caller
/// to fill; the subject hint is carried in the clear and never authenticated.
pub fn encrypt_message(
    sender: &LedgerIdentity,
    recipient_encryption_pubkey: &[u8],
    subject: &str,
    plaintext: &str,
) -> (r: Result<EncryptedEnvelope, LedgerError>)
    requires
        sender.wf(),
    ensures
        r is Ok <==> recipient_encryption_pubkey@.len() == 32 && encode_utf8(plaintext@).len()
            < CHACHA_MAX_PLAINTEXT,
        r matches Ok(env) ==> envelope_from(
            env@,
            sender.signing_key@,
            recipient_encryption_pubkey@,
            plaintext@,
        ),
        r matches Ok(env) ==> env.from_ledger_id@ == sender.ledger_id@ && env.to_ledger_id@
            == Seq::<char>::empty() && env.subject_hint@ == subject@ && env.id@.len() == 36,
        r matches Err(e) ==> (e is BadKey || e is BadCiphertext),
{
    if recipient_encryption_pubkey.len() != 32 {
        return Err(LedgerError::BadKey);
    }
    let eph_secret = os_random_bytes(32);
    let eph_public = x25519_public_key(eph_secret.as_slice());
    let shared = x25519_diffie_hellman(eph_secret.as_slice(), recipient_encryption_pubkey);
    let info = "ledger-message-key";
    let sym_key = hkdf_sha256_32(None, shared.as_slice(), info.as_bytes());
    let nonce = os_random_bytes(12);
    let ct = match chacha20poly1305_seal(sym_key.as_slice(), nonce.as_slice(),
        plaintext.as_bytes()) {
        Ok(c) => c,
        Err(_) => {
            return Err(LedgerError::BadCiphertext);
        },
    };
    let signature = ed25519_sign(sender.signing_key.as_slice(), ct.as_slice());
    let env = EncryptedEnvelope {
        id: new_uuid_string(),
        from_ledger_id: sender.ledger_id.clone(),
        to_ledger_id: String::new(),
        ephemeral_pubkey: base64_encode(eph_public.as_slice()),
        encrypted_body: base64_encode(ct.as_slice()),
        nonce: base64_encode(nonce.as_slice()),
        signature: base64_encode(signature.as_slice()),
        timestamp: unix_now(),
        subject_hint: String::from_str(subject),
    };
    proof {
        assert(envelope_encrypts(
            env@,
            sender.signing_key@,
            recipient_encryption_pubkey@,
            plaintext@,
            eph_secret@,
            nonce@,
        ));
        assert(envelope_from(
            env@,
            sender.signing_key@,
            recipient_encryption_pubkey@,
            plaintext@,
        ));
    }
    Ok(env)
}

/// The outcome of opening `env` with the X25519 secret `secret`, step by
/// step: decode and validate the ephemeral key (`BadKey`), decode nonce and
/// ciphertext (`BadCiphertext`), recover the sender key from the ledger id
/// (`BadLedgerId`, then `BadKey`/`BadSig` on malformed key or signature),
/// verify the signature over the ciphertext (`BadSig`), and only then
/// decrypt (`BadCiphertext`) and decode the plaintext (`BadEncoding`).
pub open spec fn decrypt_outcome(secret: Seq<u8>, env: EnvelopeView) -> Result<
    Seq<char>,
    LedgerError,
> {
    if base64_val_of(env.ephemeral_pubkey) is None {
        Err(LedgerError::BadKey)
    } else {
        let eph_pub = base64_val_of(env.ephemeral_pubkey)->Some_0;
        if eph_pub.len() != 32 {
            Err(LedgerError::BadKey)
        } else {
            let key = hkdf_sha256_of(
                None,
                x25519_shared_of(secret, eph_pub),
                encode_utf8("ledger-message-key"@),
            );
            if base64_val_of(env.nonce) is None {
                Err(LedgerError::BadCiphertext)
            } else {
                let nonce = base64_val_of(env.nonce)->Some_0;
                if nonce.len() != 12 {
                    Err(LedgerError::BadCiphertext)
                } else if base64_val_of(env.encrypted_body) is None {
                    Err(LedgerError::BadCiphertext)
                } else {
                    let ct = base64_val_of(env.encrypted_body)->Some_0;
                    if !(has_prefix(env.from_ledger_id, "ledger:"@) && base58_val_of(
                        env.from_ledger_id.skip(7),
                    ) is Some) {
                        Err(LedgerError::BadLedgerId)
                    } else {
                        let spk = base58_val_of(env.from_ledger_id.skip(7))->Some_0;
                        if base64_val_of(env.signature) is None {
                            Err(LedgerError::BadSig)
                        } else {
                            let sig = base64_val_of(env.signature)->Some_0;
                            if spk.len() != 32 {
                                Err(LedgerError::BadKey)
                            } else if sig.len() != 64 {
                                Err(LedgerError::BadSig)
                            } else if !ed25519_pk_valid(spk) {
                                Err(LedgerError::BadKey)
                            } else if !ed25519_verifies(spk, ct, sig) {
                                Err(LedgerError::BadSig)
                            } else if chacha_open_of(key, nonce, ct) is None {
                                Err(LedgerError::BadCiphertext)
                            } else {
                                let pt = chacha_open_of(key, nonce, ct)->Some_0;
                                if !valid_utf8(pt) {
                                    Err(LedgerError::BadEncoding)
                                } else {
                                    Ok(decode_utf8(pt))
                                }
                            }
                        }
                    }
                }
            }
        }
    }
}

/// Opens an envelope addressed to `recipient`.
///
/// The result is exactly `decrypt_outcome` of the recipient secret and the
/// envelope; in particular, the signature is verified over the ciphertext
/// before any decryption.  The last clause is the round-trip law: an
/// envelope that the envelope relation ties to this recipient's public key
/// always opens to its body.
pub fn decrypt_envelope(recipient: &LedgerIdentity, envelope: &EncryptedEnvelope) -> (r: Result<
    String,
    LedgerError,
>)
    requires
        recipient.wf(),
    ensures
        r is Ok <==> decrypt_outcome(recipient.encryption_secret@, envelope@) is Ok,
        r matches Ok(s) ==> s@ == decrypt_outcome(recipient.encryption_secret@, envelope@)->Ok_0,
        r matches Err(e) ==> e == decrypt_outcome(recipient.encryption_secret@, envelope@)->Err_0,
        forall|seed: Seq<u8>, body: Seq<char>, eph: Seq<u8>, nonce: Seq<u8>|
            envelope_encrypts(envelope@, seed, recipient.encryption_public@, body, eph, nonce)
                ==> r is Ok && r->Ok_0@ == body,
        forall|seed: Seq<u8>, body: Seq<char>|
            envelope_from(envelope@, seed, recipient.encryption_public@, body) ==> r is Ok
                && r->Ok_0@ == body,
{
    let ghost secret = recipient.encryption_secret@;
    let ghost env = envelope@;

    // Decode and validate the ephemeral public key.
    let eph_pub = match base64_decode(envelope.ephemeral_pubkey.as_str()) {
        Ok(v) => v,
        Err(_) => {
            proof {
                assert forall|seed: Seq<u8>, body: Seq<char>, eph: Seq<u8>, nonce: Seq<u8>|
                    !envelope_encrypts(env, seed, recipient.encryption_public@, body, eph, nonce)
                by {
                    if envelope_encrypts(env, seed, recipient.encryption_public@, body, eph, nonce) {
                        assert(env.ephemeral_pubkey == base64_of(x25519_pub_of(eph)));
                    }
                }
            }
            return Err(LedgerError::BadKey);
        },
    };
    if eph_pub.len() != 32 {
        proof {
            assert forall|seed: Seq<u8>, body: Seq<char>, eph: Seq<u8>, nonce: Seq<u8>|
                !envelope_encrypts(env, seed, recipient.encryption_public@, body, eph, nonce) by {
                if envelope_encrypts(env, seed, recipient.encryption_public@, body, eph, nonce) {
                    assert(env.ephemeral_pubkey == base64_of(x25519_pub_of(eph)));
                    assert(eph_pub@ == x25519_pub_of(eph));
                }
            }
        }
        return Err(LedgerError::BadKey);
    }

    // Decode nonce and ciphertext.
    let nonce = match base64_decode(envelope.nonce.as_str()) {
        Ok(v) => v,
        Err(_) => {
            proof {
                assert forall|seed: Seq<u8>, body: Seq<char>, eph: Seq<u8>, nonce_w: Seq<u8>|
                    !envelope_encrypts(env, seed, recipient.encryption_public@, body, eph, nonce_w)
                by {
                    if envelope_encrypts(env, seed, recipient.encryption_public@, body, eph, nonce_w) {
                        assert(env.nonce == base64_of(nonce_w));
                    }
                }
            }
            return Err(LedgerError::BadCiphertext);
        },
    };
    if nonce.len() != 12 {
        proof {
            assert forall|seed: Seq<u8>, body: Seq<char>, eph: Seq<u8>, nonce_w: Seq<u8>|
                !envelope_encrypts(env, seed, recipient.encryption_public@, body, eph, nonce_w) by {
                if envelope_encrypts(env, seed, recipient.encryption_public@, body, eph, nonce_w) {
                    assert(env.nonce == base64_of(nonce_w));
                    assert(nonce@ == nonce_w);
                }
            }
        }
        return Err(LedgerError::BadCiphertext);
    }
    let ciphertext = match base64_decode(envelope.encrypted_body.as_str()) {
        Ok(v) => v,
        Err(_) => {
            proof {
                assert forall|seed: Seq<u8>, body: Seq<char>, eph: Seq<u8>, nonce_w: Seq<u8>|
                    !envelope_encrypts(env, seed, recipient.encryption_public@, body, eph, nonce_w)
                by {
                    if envelope_encrypts(env, seed, recipient.encryption_public@, body, eph, nonce_w) {
                        let key_w = message_key_of(eph, recipient.encryption_public@);
                        assert(env.encrypted_body == base64_of(
                            chacha_seal_of(key_w, nonce_w, encode_utf8(body)),
                        ));
                    }
                }
            }
            return Err(LedgerError::BadCiphertext);
        },
    };

    // Recover the sender verifying key from the ledger id and verify the
    // signature over the ciphertext, before any decryption.
    let sender_pubkey = match LedgerIdentity::pubkey_from_ledger_id(
        envelope.from_ledger_id.as_str(),
    ) {
        Ok(v) => v,
        Err(_) => {
            proof {
                assert forall|seed: Seq<u8>, body: Seq<char>, eph: Seq<u8>, nonce_w: Seq<u8>|
                    !envelope_encrypts(env, seed, recipient.encryption_public@, body, eph, nonce_w)
                by {
                    if envelope_encrypts(env, seed, recipient.encryption_public@, body, eph, nonce_w) {
                        assert(env.from_ledger_id == ledger_id_of(ed25519_pub_of(seed)));
                    }
                }
            }
            return Err(LedgerError::BadLedgerId);
        },
    };
    let signature = match base64_decode(envelope.signature.as_str()) {
        Ok(v) => v,
        Err(_) => {
            proof {
                assert forall|seed: Seq<u8>, body: Seq<char>, eph: Seq<u8>, nonce_w: Seq<u8>|
                    !envelope_encrypts(env, seed, recipient.encryption_public@, body, eph, nonce_w)
                by {
                    if envelope_encrypts(env, seed, recipient.encryption_public@, body, eph, nonce_w) {
                        let key_w = message_key_of(eph, recipient.encryption_public@);
                        let ct_w = chacha_seal_of(key_w, nonce_w, encode_utf8(body));
                        assert(env.signature == base64_of(ed25519_sign_of(seed, ct_w)));
                    }
                }
            }
            return Err(LedgerError::BadSig);
        },
    };
    let valid = match LedgerIdentity::verify(
        sender_pubkey.as_slice(),
        ciphertext.as_slice(),
        signature.as_slice(),
    ) {
        Ok(b) => b,
        Err(e) => {
            proof {
                lemma_honest_envelope_verifies(
                    env,
                    recipient.encryption_public@,
                    eph_pub@,
                    nonce@,
                    ciphertext@,
                    sender_pubkey@,
                    signature@,
                );
            }
            return Err(e);
        },
    };
    if !valid {
        proof {
            lemma_honest_envelope_verifies(
                env,
                recipient.encryption_public@,
                eph_pub@,
                nonce@,
                ciphertext@,
                sender_pubkey@,
                signature@,
            );
        }
        return Err(LedgerError::BadSig);
    }

    // Only now agree on the symmetric key, decrypt and decode.
    let shared = x25519_diffie_hellman(recipient.encryption_secret.as_slice(), eph_pub.as_slice());
    let info = "ledger-message-key";
    let sym_key = hkdf_sha256_32(None, shared.as_slice(), info.as_bytes());
    let plaintext = match chacha20poly1305_open(
        sym_key.as_slice(),
        nonce.as_slice(),
        ciphertext.as_slice(),
    ) {
        Ok(v) => v,
        Err(_) => {
            proof {
                assert forall|seed: Seq<u8>, body: Seq<char>, eph: Seq<u8>, nonce_w: Seq<u8>|
                    !envelope_encrypts(env, seed, recipient.encryption_public@, body, eph, nonce_w)
                by {
                    if envelope_encrypts(env, seed, recipient.encryption_public@, body, eph, nonce_w) {
                        let key_w = message_key_of(eph, recipient.encryption_public@);
                        let ct_w = chacha_seal_of(key_w, nonce_w, encode_utf8(body));
                        assert(eph_pub@ == x25519_pub_of(eph));
                        assert(shared@ == x25519_shared_of(eph, recipient.encryption_public@));
                        assert(sym_key@ == key_w);
                        assert(nonce@ == nonce_w);
                        assert(ciphertext@ == ct_w);
                    }
                }
            }
            return Err(LedgerError::BadCiphertext);
        },
    };
    let ghost pt = plaintext@;
    match bytes_to_string(plaintext) {
        Ok(s) => {
            proof {
                assert forall|seed: Seq<u8>, body: Seq<char>, eph: Seq<u8>, nonce_w: Seq<u8>|
                    envelope_encrypts(env, seed, recipient.encryption_public@, body, eph, nonce_w)
                        implies s@ == body by {
                    let key_w = message_key_of(eph, recipient.encryption_public@);
                    let ct_w = chacha_seal_of(key_w, nonce_w, encode_utf8(body));
                    assert(eph_pub@ == x25519_pub_of(eph));
                    assert(shared@ == x25519_shared_of(eph, recipient.encryption_public@));
                    assert(sym_key@ == key_w);
                    assert(nonce@ == nonce_w);
                    assert(ciphertext@ == ct_w);
                    assert(pt == encode_utf8(body));
                    vstd::utf8::encode_utf8_decode_utf8(body);
                }
            }
            Ok(s)
        },
        Err(_) => {
            proof {
                assert forall|seed: Seq<u8>, body: Seq<char>, eph: Seq<u8>, nonce_w: Seq<u8>|
                    !envelope_encrypts(env, seed, recipient.encryption_public@, body, eph, nonce_w)
                by {
                    if envelope_encrypts(env, seed, recipient.encryption_public@, body, eph, nonce_w) {
                        let key_w = message_key_of(eph, recipient.encryption_public@);
                        let ct_w = chacha_seal_of(key_w, nonce_w, encode_utf8(body));
                        assert(eph_pub@ == x25519_pub_of(eph));
                        assert(shared@ == x25519_shared_of(eph, recipient.encryption_public@));
                        assert(sym_key@ == key_w);
                        assert(nonce@ == nonce_w);
                        assert(ciphertext@ == ct_w);
                        assert(pt == encode_utf8(body));
                        vstd::utf8::encode_utf8_valid_utf8(body);
                        assert(valid_utf8(pt));
                    }
                }
            }
            Err(LedgerError::BadEncoding)
        },
    }
}

/// Under the envelope relation, the decoded sender key is the honest key and
/// the decoded signature is the honest signature over the decoded
/// ciphertext; the verification wrapper therefore cannot have failed.  Holds
/// vacuously when no witnesses satisfy the relation.
proof fn lemma_honest_envelope_verifies(
    env: EnvelopeView,
    recipient_pub: Seq<u8>,
    eph_pub: Seq<u8>,
    nonce: Seq<u8>,
    ciphertext: Seq<u8>,
    sender_pubkey: Seq<u8>,
    signature: Seq<u8>,
)
    requires
        forall|pk: Seq<u8>|
            env.from_ledger_id == ledger_id_of(pk) ==> sender_pubkey == pk,
        forall|b: Seq<u8>| env.signature == base64_of(b) ==> signature == b,
        forall|b: Seq<u8>| env.encrypted_body == base64_of(b) ==> ciphertext == b,
    ensures
        forall|seed: Seq<u8>, body: Seq<char>, eph: Seq<u8>, nonce_w: Seq<u8>|
            envelope_encrypts(env, seed, recipient_pub, body, eph, nonce_w) ==> sender_pubkey
                == ed25519_pub_of(seed) && sender_pubkey.len() == 32 && signature
                == ed25519_sign_of(
                seed,
                ciphertext,
            ) && signature.len() == 64,
{
    assert forall|seed: Seq<u8>, body: Seq<char>, eph: Seq<u8>, nonce_w: Seq<u8>|
        envelope_encrypts(env, seed, recipient_pub, body, eph, nonce_w) implies sender_pubkey
        == ed25519_pub_of(seed) && sender_pubkey.len() == 32 && signature == ed25519_sign_of(
        seed,
        ciphertext,
    ) && signature.len() == 64 by {
        let key_w = message_key_of(eph, recipient_pub);
        let ct_w = chacha_seal_of(key_w, nonce_w, encode_utf8(body));
        assert(env.from_ledger_id == ledger_id_of(ed25519_pub_of(seed)));
        assert(sender_pubkey == ed25519_pub_of(seed));
        assert(env.encrypted_body == base64_of(ct_w));
        assert(ciphertext == ct_w);
        assert(env.signature == base64_of(ed25519_sign_of(seed, ct_w)));
        assert(signature == ed25519_sign_of(seed, ct_w));
    }
}

} // verus!

