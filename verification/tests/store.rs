//! Store tests: defaults, insert-or-replace, most-recent-first listing,
//! folder filtering, contacts, and settings.

use ledger_core::models::{Message, DeliveryMethod, Folder, Contact, Settings};
use ledger_core::store::Database;

fn msg(id: &str, ts: i64, folder: Folder) -> Message {
    Message {
        id: String::from(id),
        from_id: String::from("a"),
        to_id: String::from("b"),
        subject: String::from("s"),
        body: String::from("body"),
        timestamp: ts,
        delivery_method: DeliveryMethod::P2p,
        is_read: false,
        folder,
        signature: None,
        encrypted: false,
    }
}

#[test]
fn test_open_installs_defaults() {
    let db = Database::open();
    assert_eq!(db.get_setting("delivery_mode").unwrap(), "auto");
    assert_eq!(db.get_setting("tor_enabled").unwrap(), "false");
    assert_eq!(db.get_setting("dht_ttl_hours").unwrap(), "72");
    assert!(db.get_setting("missing").is_none());
    assert!(db.get_messages(None).is_empty());
    assert!(db.get_contacts().is_empty());
}

#[test]
fn test_insert_orders_most_recent_first() {
    let mut db = Database::open();
    db.insert_message(&msg("m1", 100, Folder::Inbox));
    db.insert_message(&msg("m2", 300, Folder::Inbox));
    db.insert_message(&msg("m3", 200, Folder::Inbox));
    let all = db.get_messages(None);
    let ids: Vec<&str> = all.iter().map(|m| m.id.as_str()).collect();
    assert_eq!(ids, ["m2", "m3", "m1"]);
}

#[test]
fn test_insert_replaces_by_id() {
    let mut db = Database::open();
    db.insert_message(&msg("m1", 100, Folder::Inbox));
    let mut updated = msg("m1", 500, Folder::Sent);
    updated.body = String::from("new body");
    db.insert_message(&updated);
    let all = db.get_messages(None);
    assert_eq!(all.len(), 1);
    assert_eq!(all[0].body, "new body");
    assert_eq!(all[0].timestamp, 500);
    assert_eq!(all[0].folder, Folder::Sent);
}

#[test]
fn test_folder_filter() {
    let mut db = Database::open();
    db.insert_message(&msg("m1", 1, Folder::Inbox));
    db.insert_message(&msg("m2", 2, Folder::Sent));
    db.insert_message(&msg("m3", 3, Folder::Inbox));
    let inbox = db.get_messages(Some("inbox"));
    assert_eq!(inbox.len(), 2);
    assert_eq!(inbox[0].id, "m3");
    assert_eq!(inbox[1].id, "m1");
    let sent = db.get_messages(Some("sent"));
    assert_eq!(sent.len(), 1);
    assert_eq!(sent[0].id, "m2");
    assert!(db.get_messages(Some("drafts")).is_empty());
}

#[test]
fn test_get_delete_mark_read() {
    let mut db = Database::open();
    db.insert_message(&msg("m1", 1, Folder::Inbox));
    db.insert_message(&msg("m2", 2, Folder::Inbox));
    assert!(db.get_message("m1").is_some());
    assert!(db.get_message("nope").is_none());
    db.mark_read("m1");
    assert!(db.get_message("m1").unwrap().is_read);
    assert!(!db.get_message("m2").unwrap().is_read);
    assert!(db.delete_message("m1"));
    assert!(!db.delete_message("m1"));
    assert!(db.get_message("m1").is_none());
    assert_eq!(db.get_messages(None).len(), 1);
}

#[test]
fn test_contacts_upsert_and_get() {
    let mut db = Database::open();
    let c = Contact {
        ledger_id: String::from("ledger:abc"),
        public_key: String::from("azaz"),
        display_name: Some(String::from("Alice")),
        relay_address: None,
    };
    db.upsert_contact(&c);
    let got = db.get_contact("ledger:abc").unwrap();
    assert_eq!(got.display_name.as_deref(), Some("Alice"));
    let c2 = Contact {
        ledger_id: String::from("ledger:abc"),
        public_key: String::from("qqqq"),
        display_name: Some(String::from("Alice B")),
        relay_address: Some(String::from("alice@example.org")),
    };
    db.upsert_contact(&c2);
    assert_eq!(db.get_contacts().len(), 1);
    let got = db.get_contact("ledger:abc").unwrap();
    assert_eq!(got.public_key, "qqqq");
    assert_eq!(got.relay_address.as_deref(), Some("alice@example.org"));
    assert!(db.get_contact("ledger:missing").is_none());
}

#[test]
fn test_settings_set_get() {
    let mut db = Database::open();
    db.set_setting("relay_email", "me@example.org");
    assert_eq!(db.get_setting("relay_email").unwrap(), "me@example.org");
    db.set_setting("relay_email", "other@example.org");
    assert_eq!(db.get_setting("relay_email").unwrap(), "other@example.org");
    assert_eq!(db.get_all_settings().len(), 4);
}

#[test]
fn test_apply_settings() {
    let mut db = Database::open();
    db.apply_settings(&Settings {
        delivery_mode: Some(String::from("p2p_only")),
        tor_enabled: Some(true),
        dht_ttl_hours: Some(1),
    });
    assert_eq!(db.get_setting("delivery_mode").unwrap(), "p2p_only");
    assert_eq!(db.get_setting("tor_enabled").unwrap(), "true");
    assert_eq!(db.get_setting("dht_ttl_hours").unwrap(), "1");
    db.apply_settings(&Settings { delivery_mode: None, tor_enabled: None, dht_ttl_hours: None });
    assert_eq!(db.get_setting("delivery_mode").unwrap(), "p2p_only");
}

#[test]
fn test_contacts_listed_by_display_name() {
    let mut db = Database::open();
    let mk = |id: &str, name: Option<&str>| Contact {
        ledger_id: String::from(id),
        public_key: String::from("k"),
        display_name: name.map(String::from),
        relay_address: None,
    };
    db.upsert_contact(&mk("ledger:1", Some("Bob")));
    db.upsert_contact(&mk("ledger:2", Some("Alice")));
    db.upsert_contact(&mk("ledger:3", None));
    let names: Vec<Option<String>> =
        db.get_contacts().into_iter().map(|c| c.display_name).collect();
    assert_eq!(
        names,
        [None, Some(String::from("Alice")), Some(String::from("Bob"))]
    );
}
