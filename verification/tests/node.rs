//! Inbound handler tests: a well-formed envelope is accepted and filed, a
//! tampered or malformed one is rejected and leaves the store untouched.

use base64::Engine;
use ledger_core::dht::{dht_store_request, envelopes_from_dht_value, record_expiry};
use ledger_core::envelope::encrypt_message;
use ledger_core::json::envelope_to_json;
use ledger_core::keys::LedgerIdentity;
use ledger_core::models::DeliveryMethod;
use ledger_core::node::handle_inbound_envelope;
use ledger_core::store::Database;

#[test]
fn test_inbound_accept() {
    let sender = LedgerIdentity::generate().unwrap();
    let recipient = LedgerIdentity::generate().unwrap();
    let mut envelope = encrypt_message(
        &sender,
        &recipient.encryption_public_bytes(),
        "greet",
        "Hi",
    )
    .unwrap();
    envelope.to_ledger_id = recipient.ledger_id.clone();
    let json = envelope_to_json(&envelope);

    let mut db = Database::open();
    let response = handle_inbound_envelope(&recipient, &mut db, &json);
    assert!(response.accepted);
    assert!(response.error.is_none());

    let inbox = db.get_messages(Some("inbox"));
    assert_eq!(inbox.len(), 1);
    let m = &inbox[0];
    assert_eq!(m.id, envelope.id);
    assert_eq!(m.from_id, sender.ledger_id);
    assert_eq!(m.to_id, recipient.ledger_id);
    assert_eq!(m.subject, "greet");
    assert_eq!(m.body, "Hi");
    assert_eq!(m.delivery_method, DeliveryMethod::P2p);
    assert!(m.encrypted);
    assert_eq!(m.signature.as_ref(), Some(&envelope.signature));
}

#[test]
fn test_inbound_reject_bad_signature() {
    let sender = LedgerIdentity::generate().unwrap();
    let recipient = LedgerIdentity::generate().unwrap();
    let mut envelope = encrypt_message(
        &sender,
        &recipient.encryption_public_bytes(),
        "greet",
        "Hi",
    )
    .unwrap();
    envelope.to_ledger_id = recipient.ledger_id.clone();
    let mut sig =
        base64::engine::general_purpose::STANDARD.decode(&envelope.signature).unwrap();
    sig[0] ^= 0xff;
    envelope.signature = base64::engine::general_purpose::STANDARD.encode(&sig);
    let json = envelope_to_json(&envelope);

    let mut db = Database::open();
    let response = handle_inbound_envelope(&recipient, &mut db, &json);
    assert!(!response.accepted);
    assert!(!response.error.unwrap().is_empty());
    assert!(db.get_messages(Some("inbox")).is_empty());
}

#[test]
fn test_inbound_reject_parse_failure() {
    let recipient = LedgerIdentity::generate().unwrap();
    let mut db = Database::open();
    let response = handle_inbound_envelope(&recipient, &mut db, "{ not an envelope }");
    assert!(!response.accepted);
    assert!(!response.error.unwrap().is_empty());
    assert!(db.get_messages(None).is_empty());
}

#[test]
fn test_dht_value_roundtrip() {
    let sender = LedgerIdentity::generate().unwrap();
    let recipient = LedgerIdentity::generate().unwrap();
    let mut envelope = encrypt_message(
        &sender,
        &recipient.encryption_public_bytes(),
        "pending",
        "stored while offline",
    )
    .unwrap();
    envelope.to_ledger_id = recipient.ledger_id.clone();

    let (key, value) = dht_store_request(&recipient.ledger_id, &envelope);
    assert_eq!(key, format!("ledger:msg:{}", recipient.ledger_id).into_bytes());

    let list = envelopes_from_dht_value(&value).unwrap();
    assert_eq!(list.len(), 1);
    assert_eq!(list[0].id, envelope.id);
    assert_eq!(list[0].encrypted_body, envelope.encrypted_body);
    assert!(envelopes_from_dht_value(b"\xff\xfe").is_err());
    assert!(envelopes_from_dht_value(b"{}").is_err());
}

#[test]
fn test_record_expiry_one_hour() {
    // a one-hour time-to-live expires exactly 3600 seconds later
    let now = 1_700_000_000i64;
    assert_eq!(record_expiry(now, 1), now + 3600);
    assert_eq!(record_expiry(now, 72), now + 72 * 3600);
}
