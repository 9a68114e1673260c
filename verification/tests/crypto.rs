//! Identity and envelope tests: key derivation, signing, the ledger-id
//! round trip, the encrypt/decrypt round trip, and rejection of tampered or
//! misaddressed envelopes.

use base64::Engine;
use ledger_core::envelope::{encrypt_message, decrypt_envelope};
use ledger_core::keys::LedgerIdentity;

#[test]
fn test_generate_identity() {
    let identity = LedgerIdentity::generate().unwrap();
    assert!(identity.ledger_id.starts_with("ledger:"));
    assert_eq!(identity.public_key_bytes().len(), 32);
    assert_eq!(identity.encryption_public_bytes().len(), 32);
}

#[test]
fn test_sign_verify() {
    let identity = LedgerIdentity::generate().unwrap();
    let data = b"Hello, Ledger!";
    let signature = identity.sign(data);
    let valid = LedgerIdentity::verify(&identity.public_key_bytes(), data, &signature).unwrap();
    assert!(valid);
}

#[test]
fn test_sign_verify_tampered() {
    let identity = LedgerIdentity::generate().unwrap();
    let data = b"Hello, Ledger!";
    let signature = identity.sign(data);
    let valid =
        LedgerIdentity::verify(&identity.public_key_bytes(), b"Tampered!", &signature).unwrap();
    assert!(!valid);
}

#[test]
fn test_ledger_id_roundtrip() {
    let identity = LedgerIdentity::generate().unwrap();
    let pubkey = LedgerIdentity::pubkey_from_ledger_id(&identity.ledger_id).unwrap();
    assert_eq!(pubkey, identity.public_key_bytes());
}

#[test]
fn test_same_seed_same_identity() {
    let seed: Vec<u8> = (0u8..32u8).collect();
    let a = LedgerIdentity::from_seed(&seed).unwrap();
    let b = LedgerIdentity::from_seed(&seed).unwrap();
    assert_eq!(a.verifying_key, b.verifying_key);
    assert_eq!(a.encryption_secret, b.encryption_secret);
    assert_eq!(a.encryption_public, b.encryption_public);
    assert_eq!(a.ledger_id, b.ledger_id);
}

#[test]
fn test_bad_seed_length() {
    assert!(LedgerIdentity::from_seed(&[1u8; 31]).is_err());
    assert!(LedgerIdentity::from_seed(&[1u8; 33]).is_err());
    assert!(LedgerIdentity::from_seed(&[1u8; 32]).is_ok());
}

#[test]
fn test_verify_malformed_inputs() {
    let identity = LedgerIdentity::generate().unwrap();
    let data = b"payload";
    let signature = identity.sign(data);
    assert!(LedgerIdentity::verify(&[0u8; 31], data, &signature).is_err());
    assert!(LedgerIdentity::verify(&identity.public_key_bytes(), data, &[0u8; 63]).is_err());
}

#[test]
fn test_pubkey_from_ledger_id_rejects() {
    assert!(LedgerIdentity::pubkey_from_ledger_id("nope").is_err());
    assert!(LedgerIdentity::pubkey_from_ledger_id("ledger:0OIl").is_err());
}

#[test]
fn test_encrypt_decrypt_roundtrip() {
    let sender = LedgerIdentity::generate().unwrap();
    let recipient = LedgerIdentity::generate().unwrap();

    let mut envelope = encrypt_message(
        &sender,
        &recipient.encryption_public_bytes(),
        "Test Subject",
        "Hello, this is a secret message!",
    )
    .unwrap();

    envelope.to_ledger_id = recipient.ledger_id.clone();

    let decrypted = decrypt_envelope(&recipient, &envelope).unwrap();
    assert_eq!(decrypted, "Hello, this is a secret message!");
}

#[test]
fn test_roundtrip_keeps_subject_hint() {
    let sender = LedgerIdentity::generate().unwrap();
    let recipient = LedgerIdentity::generate().unwrap();
    let mut envelope =
        encrypt_message(&sender, &recipient.encryption_public_bytes(), "greet", "Hi").unwrap();
    envelope.to_ledger_id = recipient.ledger_id.clone();
    assert_eq!(envelope.subject_hint, "greet");
    let decrypted = decrypt_envelope(&recipient, &envelope).unwrap();
    assert_eq!(decrypted, "Hi");
}

#[test]
fn test_wrong_recipient_fails() {
    let sender = LedgerIdentity::generate().unwrap();
    let recipient = LedgerIdentity::generate().unwrap();
    let wrong_recipient = LedgerIdentity::generate().unwrap();

    let mut envelope =
        encrypt_message(&sender, &recipient.encryption_public_bytes(), "Test", "Secret message")
            .unwrap();

    envelope.to_ledger_id = recipient.ledger_id.clone();

    let result = decrypt_envelope(&wrong_recipient, &envelope);
    assert!(result.is_err());
}

#[test]
fn test_tampered_ciphertext_fails() {
    let sender = LedgerIdentity::generate().unwrap();
    let recipient = LedgerIdentity::generate().unwrap();

    let mut envelope =
        encrypt_message(&sender, &recipient.encryption_public_bytes(), "Test", "Secret message")
            .unwrap();

    envelope.to_ledger_id = recipient.ledger_id.clone();

    let mut body_bytes = base64::engine::general_purpose::STANDARD
        .decode(&envelope.encrypted_body)
        .unwrap();
    if let Some(byte) = body_bytes.first_mut() {
        *byte ^= 0xFF;
    }
    envelope.encrypted_body = base64::engine::general_purpose::STANDARD.encode(&body_bytes);

    let result = decrypt_envelope(&recipient, &envelope);
    assert!(result.is_err());
}

#[test]
fn test_tampered_nonce_fails() {
    let sender = LedgerIdentity::generate().unwrap();
    let recipient = LedgerIdentity::generate().unwrap();
    let mut envelope =
        encrypt_message(&sender, &recipient.encryption_public_bytes(), "Test", "Secret message")
            .unwrap();
    envelope.to_ledger_id = recipient.ledger_id.clone();
    let mut nonce =
        base64::engine::general_purpose::STANDARD.decode(&envelope.nonce).unwrap();
    nonce[0] ^= 0x01;
    envelope.nonce = base64::engine::general_purpose::STANDARD.encode(&nonce);
    assert!(decrypt_envelope(&recipient, &envelope).is_err());
}

#[test]
fn test_tampered_ephemeral_key_fails() {
    let sender = LedgerIdentity::generate().unwrap();
    let recipient = LedgerIdentity::generate().unwrap();
    let mut envelope =
        encrypt_message(&sender, &recipient.encryption_public_bytes(), "Test", "Secret message")
            .unwrap();
    envelope.to_ledger_id = recipient.ledger_id.clone();
    let mut eph =
        base64::engine::general_purpose::STANDARD.decode(&envelope.ephemeral_pubkey).unwrap();
    eph[5] ^= 0x40;
    envelope.ephemeral_pubkey = base64::engine::general_purpose::STANDARD.encode(&eph);
    assert!(decrypt_envelope(&recipient, &envelope).is_err());
}

#[test]
fn test_tampered_signature_fails() {
    let sender = LedgerIdentity::generate().unwrap();
    let recipient = LedgerIdentity::generate().unwrap();
    let mut envelope =
        encrypt_message(&sender, &recipient.encryption_public_bytes(), "Test", "Secret message")
            .unwrap();
    envelope.to_ledger_id = recipient.ledger_id.clone();
    let mut sig =
        base64::engine::general_purpose::STANDARD.decode(&envelope.signature).unwrap();
    sig[10] ^= 0x10;
    envelope.signature = base64::engine::general_purpose::STANDARD.encode(&sig);
    assert!(decrypt_envelope(&recipient, &envelope).is_err());
}

#[test]
fn test_signature_does_not_transfer_to_new_body() {
    // The signature covers the ciphertext, not the plaintext: pairing a
    // fresh ciphertext with an old signature must fail.
    let sender = LedgerIdentity::generate().unwrap();
    let recipient = LedgerIdentity::generate().unwrap();
    let mut first =
        encrypt_message(&sender, &recipient.encryption_public_bytes(), "s", "first body").unwrap();
    first.to_ledger_id = recipient.ledger_id.clone();
    let mut second =
        encrypt_message(&sender, &recipient.encryption_public_bytes(), "s", "second body")
            .unwrap();
    second.to_ledger_id = recipient.ledger_id.clone();
    second.signature = first.signature.clone();
    assert!(decrypt_envelope(&recipient, &second).is_err());
}
