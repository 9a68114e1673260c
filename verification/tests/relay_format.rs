//! Relay format tests: the fallback framing, marker extraction, payload
//! shape, mail classification, and the enum storage texts.

use ledger_core::models::{DeliveryMethod, Folder};
use ledger_core::relay::{
    fallback_subject, fallback_email_body, build_relay_payload, extract_encrypted_payload,
    classify_inbound_mail,
};

#[test]
fn test_fallback_body_format() {
    let body = fallback_email_body("PAYLOAD");
    assert_eq!(
        body,
        "This message was sent by the Ledger encrypted mail client.\n\
         The recipient's Ledger node was unreachable, so this encrypted fallback was sent.\n\
         \n\
         --- BEGIN LEDGER ENCRYPTED MESSAGE ---\n\
         PAYLOAD\n\
         --- END LEDGER ENCRYPTED MESSAGE ---\n"
    );
    assert_eq!(fallback_subject(), "[Ledger Encrypted Fallback]");
}

#[test]
fn test_relay_payload_shape() {
    let p = build_relay_payload("ledger:abc", "su\"bj", "body text", 99);
    assert_eq!(
        p,
        "{\"from\":\"ledger:abc\",\"subject\":\"su\\\"bj\",\"body\":\"body text\",\"timestamp\":99}"
    );
}

#[test]
fn test_extract_payload_roundtrip() {
    let body = fallback_email_body("{\"from\":\"x\"}");
    assert_eq!(extract_encrypted_payload(&body).unwrap(), "{\"from\":\"x\"}");
}

#[test]
fn test_extract_payload_edge_cases() {
    assert!(extract_encrypted_payload("no markers at all").is_none());
    assert!(extract_encrypted_payload("--- BEGIN LEDGER ENCRYPTED MESSAGE ---\nxyz").is_none());
    assert!(extract_encrypted_payload(
        "--- BEGIN LEDGER ENCRYPTED MESSAGE ---\n  \n--- END LEDGER ENCRYPTED MESSAGE ---"
    )
    .is_none());
    // the end marker first: nothing is extracted
    assert!(extract_encrypted_payload(
        "--- END LEDGER ENCRYPTED MESSAGE --- x --- BEGIN LEDGER ENCRYPTED MESSAGE ---"
    )
    .is_none());
    assert_eq!(
        extract_encrypted_payload(
            "junk --- BEGIN LEDGER ENCRYPTED MESSAGE ---  data  --- END LEDGER ENCRYPTED MESSAGE --- junk"
        )
        .unwrap(),
        "data"
    );
}

#[test]
fn test_classify_inbound_mail() {
    let fallback = classify_inbound_mail(
        String::from("a@x"),
        String::from("b@y"),
        String::from("Fwd: [Ledger Encrypted Fallback]"),
        String::from("body"),
    );
    assert_eq!(fallback.delivery_method, DeliveryMethod::Fallback);
    assert!(fallback.encrypted);
    assert_eq!(fallback.folder, Folder::Inbox);

    let plain = classify_inbound_mail(
        String::from("a@x"),
        String::from("b@y"),
        String::from("lunch?"),
        String::from("body"),
    );
    assert_eq!(plain.delivery_method, DeliveryMethod::MailRelay);
    assert!(!plain.encrypted);
}

#[test]
fn test_enum_storage_texts() {
    assert_eq!(DeliveryMethod::from_str("p2p"), DeliveryMethod::P2p);
    assert_eq!(DeliveryMethod::from_str("relay"), DeliveryMethod::MailRelay);
    assert_eq!(DeliveryMethod::from_str("fallback"), DeliveryMethod::Fallback);
    assert_eq!(DeliveryMethod::from_str("anything else"), DeliveryMethod::P2p);
    assert_eq!(DeliveryMethod::MailRelay.to_str(), "relay");
    assert_eq!(Folder::from_str("inbox"), Folder::Inbox);
    assert_eq!(Folder::from_str("sent"), Folder::Sent);
    assert_eq!(Folder::from_str("drafts"), Folder::Drafts);
    assert_eq!(Folder::from_str("junk"), Folder::Inbox);
    assert_eq!(Folder::Sent.to_str(), "sent");
}
