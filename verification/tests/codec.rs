//! Wire codec tests: the canonical envelope document round-trips through
//! the parser, escaping covers quotes, backslashes and control characters,
//! and malformed documents are rejected.

use ledger_core::json::{envelope_to_json, envelope_from_json};
use ledger_core::models::EncryptedEnvelope;

fn sample(subject: &str, timestamp: i64) -> EncryptedEnvelope {
    EncryptedEnvelope {
        id: String::from("0c6a7a2e-1111-2222-3333-444455556666"),
        from_ledger_id: String::from("ledger:3mJr7AoUXx2Wqd"),
        to_ledger_id: String::from("ledger:2NEpo7TZRRrLZSi2U"),
        ephemeral_pubkey: String::from("qqqq++//AAAA0123456789abcdefghijklmnopqrstu="),
        encrypted_body: String::from("c2VjcmV0IGJvZHk="),
        nonce: String::from("AAECAwQFBgcICQoL"),
        signature: String::from("c2lnbmF0dXJl"),
        timestamp,
        subject_hint: String::from(subject),
    }
}

#[test]
fn test_envelope_json_shape() {
    let env = sample("hello", 1700000000);
    let json = envelope_to_json(&env);
    assert_eq!(
        json,
        "{\"id\":\"0c6a7a2e-1111-2222-3333-444455556666\",\
         \"from_ledger_id\":\"ledger:3mJr7AoUXx2Wqd\",\
         \"to_ledger_id\":\"ledger:2NEpo7TZRRrLZSi2U\",\
         \"ephemeral_pubkey\":\"qqqq++//AAAA0123456789abcdefghijklmnopqrstu=\",\
         \"encrypted_body\":\"c2VjcmV0IGJvZHk=\",\
         \"nonce\":\"AAECAwQFBgcICQoL\",\
         \"signature\":\"c2lnbmF0dXJl\",\
         \"timestamp\":1700000000,\
         \"subject_hint\":\"hello\"}"
    );
}

#[test]
fn test_envelope_json_roundtrip_plain() {
    let env = sample("a plain subject", 42);
    let back = envelope_from_json(&envelope_to_json(&env)).unwrap();
    assert_eq!(back.id, env.id);
    assert_eq!(back.from_ledger_id, env.from_ledger_id);
    assert_eq!(back.to_ledger_id, env.to_ledger_id);
    assert_eq!(back.ephemeral_pubkey, env.ephemeral_pubkey);
    assert_eq!(back.encrypted_body, env.encrypted_body);
    assert_eq!(back.nonce, env.nonce);
    assert_eq!(back.signature, env.signature);
    assert_eq!(back.timestamp, env.timestamp);
    assert_eq!(back.subject_hint, env.subject_hint);
}

#[test]
fn test_envelope_json_roundtrip_escapes() {
    let env = sample("quote \" backslash \\ tab \t newline \n bell \u{07} unicode é日本", -7);
    let json = envelope_to_json(&env);
    assert!(json.contains("\\\""));
    assert!(json.contains("\\\\"));
    assert!(json.contains("\\u0009"));
    assert!(json.contains("\\u000a"));
    assert!(json.contains("\\u0007"));
    let back = envelope_from_json(&json).unwrap();
    assert_eq!(back.subject_hint, env.subject_hint);
    assert_eq!(back.timestamp, -7);
}

#[test]
fn test_envelope_json_roundtrip_extreme_timestamps() {
    for ts in [0i64, -1, 1, i64::MAX, i64::MIN, 1234567890123456789] {
        let env = sample("t", ts);
        let back = envelope_from_json(&envelope_to_json(&env)).unwrap();
        assert_eq!(back.timestamp, ts);
    }
}

#[test]
fn test_envelope_json_rejects_malformed() {
    assert!(envelope_from_json("").is_err());
    assert!(envelope_from_json("{}").is_err());
    assert!(envelope_from_json("not json at all").is_err());
    let env = sample("x", 5);
    let json = envelope_to_json(&env);
    // truncation
    assert!(envelope_from_json(&json[..json.len() - 1]).is_err());
    // trailing garbage
    let mut extended = json.clone();
    extended.push(' ');
    assert!(envelope_from_json(&extended).is_err());
    // an unknown escape
    let bad = json.replace("\"id\":\"0c", "\"id\":\"\\q0c");
    assert!(envelope_from_json(&bad).is_err());
}

#[test]
fn test_envelope_json_rejects_noncanonical_number() {
    let env = sample("x", 7);
    let json = envelope_to_json(&env);
    let bad = json.replace("\"timestamp\":7", "\"timestamp\":07");
    assert!(envelope_from_json(&bad).is_err());
    let bad2 = json.replace("\"timestamp\":7", "\"timestamp\":-0");
    assert!(envelope_from_json(&bad2).is_err());
}
