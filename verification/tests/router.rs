//! Router tests: mode gating, the peer-to-peer path, the auto cascade into
//! the DHT store and the relay fallback, and the sent-copy record.

use base64::Engine;
use ledger_core::keys::LedgerIdentity;
use ledger_core::models::{Contact, Folder, DeliveryMethod, PeerInfo};
use ledger_core::router::{
    route_start, route_step, record_sent_message, dht_ttl_hours, DeliveryResult, RouterAction,
    RouterEvent, RouterState,
};
use ledger_core::relay::extract_encrypted_payload;
use ledger_core::store::Database;

fn add_contact(db: &mut Database, recipient: &LedgerIdentity, relay_address: Option<&str>) {
    let key_b64 = base64::engine::general_purpose::STANDARD
        .encode(recipient.encryption_public_bytes());
    db.upsert_contact(&Contact {
        ledger_id: recipient.ledger_id.clone(),
        public_key: key_b64,
        display_name: Some(String::from("R")),
        relay_address: relay_address.map(String::from),
    });
}

fn peer(id: &str) -> PeerInfo {
    PeerInfo { peer_id: String::from(id), address: String::new(), ledger_id: None }
}

#[test]
fn test_p2p_only_requires_ledger_recipient() {
    let sender = LedgerIdentity::generate().unwrap();
    let db = Database::open();
    let (state, action) =
        route_start(&sender, &db, "bob@example.org", "s", "b", "p2p_only");
    assert!(matches!(state, RouterState::Done));
    match action {
        RouterAction::Finish(DeliveryResult::Failed(t)) => {
            assert_eq!(t, "P2P mode requires a Ledger ID recipient");
        }
        _ => panic!("expected an immediate failure"),
    }
}

#[test]
fn test_p2p_only_unknown_contact_fails() {
    let sender = LedgerIdentity::generate().unwrap();
    let db = Database::open();
    let (_, action) = route_start(&sender, &db, "ledger:unknown", "s", "b", "p2p_only");
    match action {
        RouterAction::Finish(DeliveryResult::Failed(t)) => {
            assert_eq!(t, "Recipient not in contacts");
        }
        _ => panic!("expected a contact failure"),
    }
}

#[test]
fn test_p2p_direct_success_and_sent_record() {
    let sender = LedgerIdentity::generate().unwrap();
    let recipient = LedgerIdentity::generate().unwrap();
    let mut db = Database::open();
    add_contact(&mut db, &recipient, None);

    let (state, action) =
        route_start(&sender, &db, &recipient.ledger_id, "greet", "Hi", "p2p_only");
    assert!(matches!(action, RouterAction::GetPeers));

    let (state, action) = route_step(
        &sender,
        &db,
        &recipient.ledger_id,
        "greet",
        "Hi",
        state,
        RouterEvent::Peers(vec![peer("12D3KooWPeerOne")]),
    );
    let envelope_json = match &action {
        RouterAction::SendEnvelope { peer_id, envelope_json } => {
            assert_eq!(peer_id, "12D3KooWPeerOne");
            envelope_json.clone()
        }
        _ => panic!("expected a send action"),
    };
    assert!(envelope_json.contains(&sender.ledger_id));

    let (_, action) = route_step(
        &sender,
        &db,
        &recipient.ledger_id,
        "greet",
        "Hi",
        state,
        RouterEvent::SendOutcome(Ok(())),
    );
    let result = match action {
        RouterAction::Finish(r) => r,
        _ => panic!("expected the final verdict"),
    };
    assert!(matches!(result, DeliveryResult::P2pDirect));

    let stored =
        record_sent_message(&mut db, &sender, &recipient.ledger_id, "greet", "Hi", &result)
            .unwrap();
    assert_eq!(stored.folder, Folder::Sent);
    assert_eq!(stored.delivery_method, DeliveryMethod::P2p);
    assert!(stored.encrypted);
    let sent = db.get_messages(Some("sent"));
    assert_eq!(sent.len(), 1);
    assert_eq!(sent[0].body, "Hi");
}

#[test]
fn test_auto_falls_back_to_dht_and_relay() {
    let sender = LedgerIdentity::generate().unwrap();
    let recipient = LedgerIdentity::generate().unwrap();
    let mut db = Database::open();
    add_contact(&mut db, &recipient, Some("recipient@example.org"));
    db.set_setting("relay_email", "sender@example.org");
    db.set_setting("relay_password", "SECRET-REDACTED");
    db.set_setting("dht_ttl_hours", "1");

    let (state, action) = route_start(&sender, &db, &recipient.ledger_id, "s", "b", "auto");
    assert!(matches!(action, RouterAction::GetPeers));

    // no connected peers: the machine turns to the DHT
    let (state, action) = route_step(
        &sender,
        &db,
        &recipient.ledger_id,
        "s",
        "b",
        state,
        RouterEvent::Peers(vec![]),
    );
    match &action {
        RouterAction::DhtPut { key, value, ttl_hours } => {
            let expected_key = format!("ledger:msg:{}", recipient.ledger_id);
            assert_eq!(key.as_slice(), expected_key.as_bytes());
            assert!(!value.is_empty());
            assert_eq!(*ttl_hours, 1);
        }
        _ => panic!("expected a DHT store action"),
    }

    // the store succeeded; the relay fallback still runs
    let (state, action) = route_step(
        &sender,
        &db,
        &recipient.ledger_id,
        "s",
        "b",
        state,
        RouterEvent::DhtOutcome(Ok(())),
    );
    match &action {
        RouterAction::SendRelay { to, subject, body } => {
            assert_eq!(to, "recipient@example.org");
            assert_eq!(subject, "[Ledger Encrypted Fallback]");
            assert!(body.contains("--- BEGIN LEDGER ENCRYPTED MESSAGE ---"));
            assert!(body.contains("--- END LEDGER ENCRYPTED MESSAGE ---"));
            let payload = extract_encrypted_payload(body).unwrap();
            assert!(payload.contains(&format!("\"from\":\"{}\"", sender.ledger_id)));
        }
        _ => panic!("expected a relay action"),
    }

    // the relay won: the verdict is the fallback
    let (_, action) = route_step(
        &sender,
        &db,
        &recipient.ledger_id,
        "s",
        "b",
        state,
        RouterEvent::RelayOutcome(Ok(())),
    );
    assert!(matches!(action, RouterAction::Finish(DeliveryResult::RelayFallback)));
}

#[test]
fn test_auto_prefers_dht_when_relay_fails() {
    let sender = LedgerIdentity::generate().unwrap();
    let recipient = LedgerIdentity::generate().unwrap();
    let mut db = Database::open();
    add_contact(&mut db, &recipient, Some("recipient@example.org"));
    db.set_setting("relay_email", "sender@example.org");
    db.set_setting("relay_password", "SECRET-REDACTED");

    let (state, _) = route_start(&sender, &db, &recipient.ledger_id, "s", "b", "auto");
    let (state, _) = route_step(
        &sender, &db, &recipient.ledger_id, "s", "b", state, RouterEvent::Peers(vec![]),
    );
    let (state, _) = route_step(
        &sender, &db, &recipient.ledger_id, "s", "b", state, RouterEvent::DhtOutcome(Ok(())),
    );
    let (_, action) = route_step(
        &sender,
        &db,
        &recipient.ledger_id,
        "s",
        "b",
        state,
        RouterEvent::RelayOutcome(Err(String::from("connection refused"))),
    );
    assert!(matches!(action, RouterAction::Finish(DeliveryResult::DhtStored)));
}

#[test]
fn test_auto_all_paths_failing() {
    let sender = LedgerIdentity::generate().unwrap();
    let recipient = LedgerIdentity::generate().unwrap();
    let mut db = Database::open();
    add_contact(&mut db, &recipient, None);
    // the relay is unconfigured and the contact has no relay address

    let (state, _) = route_start(&sender, &db, &recipient.ledger_id, "s", "b", "auto");
    let (state, _) = route_step(
        &sender, &db, &recipient.ledger_id, "s", "b", state, RouterEvent::Peers(vec![]),
    );
    let (_, action) = route_step(
        &sender,
        &db,
        &recipient.ledger_id,
        "s",
        "b",
        state,
        RouterEvent::DhtOutcome(Err(String::from("no quorum"))),
    );
    match action {
        RouterAction::Finish(DeliveryResult::Failed(t)) => {
            assert_eq!(t, "All delivery methods failed");
        }
        _ => panic!("expected the terminal failure"),
    }
}

#[test]
fn test_relay_only_direct() {
    let sender = LedgerIdentity::generate().unwrap();
    let mut db = Database::open();

    let (_, action) = route_start(&sender, &db, "bob@example.org", "subj", "text", "relay_only");
    match action {
        RouterAction::Finish(DeliveryResult::Failed(t)) => assert_eq!(t, "Relay not configured"),
        _ => panic!("expected a configuration failure"),
    }

    db.set_setting("relay_email", "sender@example.org");
    db.set_setting("relay_password", "SECRET-REDACTED");
    let (state, action) =
        route_start(&sender, &db, "bob@example.org", "subj", "text", "relay_only");
    match &action {
        RouterAction::SendRelay { to, subject, body } => {
            assert_eq!(to, "bob@example.org");
            assert_eq!(subject, "subj");
            assert_eq!(body, "text");
        }
        _ => panic!("expected a relay action"),
    }
    let (_, action) = route_step(
        &sender,
        &db,
        "bob@example.org",
        "subj",
        "text",
        state,
        RouterEvent::RelayOutcome(Ok(())),
    );
    assert!(matches!(action, RouterAction::Finish(DeliveryResult::RelayDirect)));
}

#[test]
fn test_unknown_mode_is_auto() {
    let sender = LedgerIdentity::generate().unwrap();
    let mut db = Database::open();
    db.set_setting("relay_email", "sender@example.org");
    db.set_setting("relay_password", "SECRET-REDACTED");
    // a non-ledger recipient under an unknown mode goes straight to the relay
    let (_, action) = route_start(&sender, &db, "bob@example.org", "s", "b", "whatever");
    assert!(matches!(action, RouterAction::SendRelay { .. }));
}

#[test]
fn test_failed_delivery_stores_nothing() {
    let sender = LedgerIdentity::generate().unwrap();
    let mut db = Database::open();
    let result = DeliveryResult::Failed(String::from("nope"));
    assert!(record_sent_message(&mut db, &sender, "x", "s", "b", &result).is_none());
    assert!(db.get_messages(None).is_empty());
}

#[test]
fn test_dht_ttl_parsing() {
    let mut db = Database::open();
    assert_eq!(dht_ttl_hours(&db), 72);
    db.set_setting("dht_ttl_hours", "1");
    assert_eq!(dht_ttl_hours(&db), 1);
    db.set_setting("dht_ttl_hours", "not a number");
    assert_eq!(dht_ttl_hours(&db), 72);
    db.set_setting("dht_ttl_hours", "168");
    assert_eq!(dht_ttl_hours(&db), 168);
}
