//! The delivery router: the decision machine that picks and sequences
//! transports — direct peer, DHT store-and-forward, mail-relay fallback —
//! and reports which path succeeded.
//!
//! The router is a state machine.  `route_start` inspects the delivery mode
//! and the recipient and either finishes at once or hands back an action for
//! the overlay or the relay; the embedder performs the action and feeds the
//! outcome to `route_step` until a `Finish` action appears.  Every decision
//! is a function of the identity, the store and the events, so the whole
//! decision tree is stated and proved here; only the I/O the actions
//! describe happens outside.

use vstd::prelude::*;
use vstd::string::*;
use vstd::utf8::*;
use crate::dht::{dht_key_of, dht_store_request};
use crate::encoding::{base64_val_of, base64_decode};
use crate::envelope::{encrypt_message, envelope_from, envelope_encrypts};
use crate::errors::LedgerError;
use crate::json::{envelope_json, envelope_to_json};
use crate::keys::LedgerIdentity;
use crate::models::{
    Message, MessageView, EncryptedEnvelope, EnvelopeView, PeerInfo, DeliveryMethod, Folder,
};
use crate::primitives::{CHACHA_MAX_PLAINTEXT, new_uuid_string, unix_now};
use crate::relay::{
    fallback_subject, fallback_email_body, build_relay_payload, relay_payload_json,
    fallback_body_of,
};
use crate::store::Database;
use crate::strutil::{has_prefix, str_eq, str_starts_with, parse_u64, parse_u64_spec};

verus! {

/// Which path delivered a message, or why none did.
#[derive(Debug)]
pub enum DeliveryResult {
    P2pDirect,
    DhtStored,
    RelayFallback,
    RelayDirect,
    Failed(String),
}

/// What the embedder must do next.
pub enum RouterAction {
    /// Ask the overlay for the connected peers.
    GetPeers,
    /// Send the envelope document to the peer over the message protocol.
    SendEnvelope { peer_id: String, envelope_json: String },
    /// Store the value in the DHT under the key, with the given time-to-live.
    DhtPut { key: Vec<u8>, value: Vec<u8>, ttl_hours: u64 },
    /// Send mail through the relay.
    SendRelay { to: String, subject: String, body: String },
    /// Routing is over; this is the outcome.
    Finish(DeliveryResult),
}

/// What the embedder reports back.
pub enum RouterEvent {
    /// The overlay's connected peers.
    Peers(Vec<PeerInfo>),
    /// The outcome of a `SendEnvelope` action.
    SendOutcome(Result<(), String>),
    /// The outcome of a `DhtPut` action.
    DhtOutcome(Result<(), String>),
    /// The outcome of a `SendRelay` action.
    RelayOutcome(Result<(), String>),
}

/// Where the routing of one message stands.
pub enum RouterState {
    /// Nothing is pending.
    Done,
    /// A `GetPeers` action is out; the envelope document waits to be sent.
    AwaitPeers { envelope_json: String, fallback: bool },
    /// A `SendEnvelope` action is out.
    AwaitSend { fallback: bool },
    /// A `DhtPut` action is out.
    AwaitDht,
    /// A fallback `SendRelay` action is out.
    AwaitRelayFallback { dht_stored: bool },
    /// A direct `SendRelay` action is out.
    AwaitRelayDirect,
}

/// A recipient addressed by ledger id rather than by mail address.
pub open spec fn is_ledger_to(to: Seq<char>) -> bool {
    has_prefix(to, "ledger:"@)
}

/// The store holds relay credentials.
pub open spec fn relay_configured(db: Database) -> bool {
    db.settings().contains_key("relay_email"@) && db.settings().contains_key("relay_password"@)
}

/// The relay address for a recipient: a ledger id resolves through the
/// contact's relay address, anything else is already a mail address.
pub open spec fn relay_address_for(db: Database, to: Seq<char>) -> Option<Seq<char>> {
    if is_ledger_to(to) {
        match db.spec_get_contact(to) {
            Some(c) => c.relay_address,
            None => None,
        }
    } else {
        Some(to)
    }
}

/// The recipient's X25519 key bytes, from the contact entry.
pub open spec fn contact_key(db: Database, to: Seq<char>) -> Seq<u8> {
    base64_val_of(db.spec_get_contact(to)->Some_0.public_key)->Some_0
}

/// Encryption for the recipient can proceed: a contact exists, its key
/// decodes to 32 bytes, and the body is within the cipher's limit.
pub open spec fn p2p_prep_ok(db: Database, to: Seq<char>, body: Seq<char>) -> bool {
    &&& db.spec_get_contact(to) is Some
    &&& base64_val_of(db.spec_get_contact(to)->Some_0.public_key) is Some
    &&& contact_key(db, to).len() == 32
    &&& encode_utf8(body).len() < CHACHA_MAX_PLAINTEXT
}

/// `j` is the canonical document of an envelope this identity sealed for
/// the recipient's contact key, addressed to `to`, hinting `subject`.
pub open spec fn outbound_envelope_json(
    j: Seq<char>,
    identity: LedgerIdentity,
    db: Database,
    to: Seq<char>,
    subject: Seq<char>,
    body: Seq<char>,
) -> bool {
    exists|e: EnvelopeView|
        #![auto]
        j == envelope_json(e) && envelope_from(e, identity.signing_key@, contact_key(db, to), body)
            && e.to_ledger_id == to && e.subject_hint == subject
}

/// The time-to-live for DHT records, in hours: the stored setting when it
/// parses, otherwise 72.
pub open spec fn dht_ttl_of(m: Map<Seq<char>, Seq<char>>) -> u64 {
    if m.contains_key("dht_ttl_hours"@) {
        match parse_u64_spec(m["dht_ttl_hours"@]) {
            Some(t) => t,
            None => 72,
        }
    } else {
        72
    }
}

/// Reads the DHT time-to-live from the settings.
pub fn dht_ttl_hours(db: &Database) -> (r: u64)
    requires
        db.wf(),
    ensures
        r == dht_ttl_of(db.settings()),
{
    match db.get_setting("dht_ttl_hours") {
        Some(v) => match parse_u64(v.as_str()) {
            Some(t) => t,
            None => 72,
        },
        None => 72,
    }
}

/// Where a peer-to-peer attempt leaves the machine: awaiting peers with a
/// fresh envelope when preparation succeeds; otherwise an immediate failure
/// in strict mode, or the cascade into the fallback attempts in auto mode.
pub open spec fn p2p_attempt_post(
    r: (RouterState, RouterAction),
    identity: LedgerIdentity,
    db: Database,
    to: Seq<char>,
    subject: Seq<char>,
    body: Seq<char>,
    fb: bool,
) -> bool {
    if p2p_prep_ok(db, to, body) {
        &&& r.0 matches RouterState::AwaitPeers { envelope_json, fallback } && fallback == fb
            && outbound_envelope_json(envelope_json@, identity, db, to, subject, body)
        &&& r.1 is GetPeers
    } else if !fb {
        &&& r.0 is Done
        &&& r.1 matches RouterAction::Finish(res) && res matches DeliveryResult::Failed(t) && (
        if db.spec_get_contact(to) is None {
            t@ == "Recipient not in contacts"@
        } else if !(base64_val_of(db.spec_get_contact(to)->Some_0.public_key) is Some
            && contact_key(db, to).len() == 32) {
            t@ == "Invalid contact public key"@
        } else {
            t@ == "Encryption failed: message too large"@
        })
    } else {
        relay_fallback_attempt_post(r, identity, db, to, subject, body, false)
    }
}

/// Where a fallback relay attempt leaves the machine: awaiting the relay
/// with the framed encrypted payload when the relay is configured and an
/// address resolves; otherwise the final verdict, preferring a DHT store
/// that already succeeded.
pub open spec fn relay_fallback_attempt_post(
    r: (RouterState, RouterAction),
    identity: LedgerIdentity,
    db: Database,
    to: Seq<char>,
    subject: Seq<char>,
    body: Seq<char>,
    dht_ok: bool,
) -> bool {
    if relay_configured(db) && relay_address_for(db, to) is Some {
        &&& r.0 matches RouterState::AwaitRelayFallback { dht_stored } && dht_stored == dht_ok
        &&& r.1 matches RouterAction::SendRelay { to: addr, subject: subj, body: b } && addr@
            == relay_address_for(db, to)->Some_0 && subj@ == "[Ledger Encrypted Fallback]"@ && (
        exists|ts: i64|
            b@ == fallback_body_of(relay_payload_json(identity.ledger_id@, subject, body, ts)))
    } else {
        &&& r.0 is Done
        &&& r.1 matches RouterAction::Finish(res) && (if dht_ok {
            res is DhtStored
        } else {
            res matches DeliveryResult::Failed(t) && t@ == "All delivery methods failed"@
        })
    }
}

/// Where a direct relay attempt leaves the machine.
pub open spec fn relay_direct_attempt_post(
    r: (RouterState, RouterAction),
    db: Database,
    to: Seq<char>,
    subject: Seq<char>,
    body: Seq<char>,
) -> bool {
    if !relay_configured(db) {
        &&& r.0 is Done
        &&& r.1 matches RouterAction::Finish(res) && res matches DeliveryResult::Failed(t) && t@
            == "Relay not configured"@
    } else if relay_address_for(db, to) is None {
        &&& r.0 is Done
        &&& r.1 matches RouterAction::Finish(res) && res matches DeliveryResult::Failed(t) && t@
            == "No relay address for contact"@
    } else {
        &&& r.0 is AwaitRelayDirect
        &&& r.1 matches RouterAction::SendRelay { to: addr, subject: subj, body: b } && addr@
            == relay_address_for(db, to)->Some_0 && subj@ == subject && b@ == body
    }
}

/// Where a DHT store attempt leaves the machine: awaiting the DHT with a
/// fresh envelope under the recipient's key when preparation succeeds;
/// otherwise straight on to the relay fallback with no store recorded.
pub open spec fn dht_attempt_post(
    r: (RouterState, RouterAction),
    identity: LedgerIdentity,
    db: Database,
    to: Seq<char>,
    subject: Seq<char>,
    body: Seq<char>,
) -> bool {
    if p2p_prep_ok(db, to, body) {
        &&& r.0 is AwaitDht
        &&& r.1 matches RouterAction::DhtPut { key, value, ttl_hours } && key@ == dht_key_of(to)
            && ttl_hours == dht_ttl_of(db.settings()) && (exists|e: EnvelopeView|
            #![auto]
            value@ == encode_utf8(envelope_json(e)) && envelope_from(
                e,
                identity.signing_key@,
                contact_key(db, to),
                body,
            ) && e.to_ledger_id == to && e.subject_hint == subject)
    } else {
        relay_fallback_attempt_post(r, identity, db, to, subject, body, false)
    }
}

/// Builds a fresh outbound envelope for the recipient and renders it.
/// Fails with `NoContact`, `BadKey` or `BadCiphertext` exactly when the
/// preparation conditions fail, in that order.
fn build_outbound_envelope(
    identity: &LedgerIdentity,
    db: &Database,
    to: &str,
    subject: &str,
    body: &str,
) -> (r: Result<EncryptedEnvelope, LedgerError>)
    requires
        identity.wf(),
        db.wf(),
    ensures
        r is Ok <==> p2p_prep_ok(*db, to@, body@),
        r matches Ok(env) ==> envelope_from(
            env@,
            identity.signing_key@,
            contact_key(*db, to@),
            body@,
        ) && env.to_ledger_id@ == to@ && env.subject_hint@ == subject@,
        r matches Err(e) ==> (if db.spec_get_contact(to@) is None {
            e is NoContact
        } else if !(base64_val_of(db.spec_get_contact(to@)->Some_0.public_key) is Some
            && contact_key(*db, to@).len() == 32) {
            e is BadKey
        } else {
            e is BadCiphertext
        }),
{
    let contact = match db.get_contact(to) {
        Some(c) => c,
        None => {
            return Err(LedgerError::NoContact);
        },
    };
    let key = match base64_decode(contact.public_key.as_str()) {
        Ok(k) => k,
        Err(_) => {
            return Err(LedgerError::BadKey);
        },
    };
    if key.len() != 32 {
        return Err(LedgerError::BadKey);
    }
    let mut env = match encrypt_message(identity, key.as_slice(), subject, body) {
        Ok(e) => e,
        Err(_) => {
            return Err(LedgerError::BadCiphertext);
        },
    };
    let ghost env0 = env@;
    env.to_ledger_id = String::from_str(to);
    proof {
        let (eph, nonce) = choose|eph: Seq<u8>, nonce: Seq<u8>|
            envelope_encrypts(
                env0,
                identity.signing_key@,
                contact_key(*db, to@),
                body@,
                eph,
                nonce,
            );
        assert(envelope_encrypts(
            env@,
            identity.signing_key@,
            contact_key(*db, to@),
            body@,
            eph,
            nonce,
        ));
        assert(envelope_from(env@, identity.signing_key@, contact_key(*db, to@), body@));
    }
    Ok(env)
}

/// Starts the fallback relay attempt.
fn try_relay_fallback(
    identity: &LedgerIdentity,
    db: &Database,
    to: &str,
    subject: &str,
    body: &str,
    dht_ok: bool,
) -> (r: (RouterState, RouterAction))
    requires
        identity.wf(),
        db.wf(),
    ensures
        relay_fallback_attempt_post(r, *identity, *db, to@, subject@, body@, dht_ok),
{
    let email = db.get_setting("relay_email");
    let password = db.get_setting("relay_password");
    let configured = match (&email, &password) {
        (Some(_), Some(_)) => true,
        _ => false,
    };
    if !configured {
        if dht_ok {
            return (RouterState::Done, RouterAction::Finish(DeliveryResult::DhtStored));
        }
        return (
            RouterState::Done,
            RouterAction::Finish(
                DeliveryResult::Failed(String::from_str("All delivery methods failed")),
            ),
        );
    }
    let addr = if str_starts_with(to, "ledger:") {
        match db.get_contact(to) {
            Some(c) => match c.relay_address {
                Some(a) => Some(a),
                None => None,
            },
            None => None,
        }
    } else {
        Some(String::from_str(to))
    };
    let addr = match addr {
        Some(a) => a,
        None => {
            if dht_ok {
                return (RouterState::Done, RouterAction::Finish(DeliveryResult::DhtStored));
            }
            return (
                RouterState::Done,
                RouterAction::Finish(
                    DeliveryResult::Failed(String::from_str("All delivery methods failed")),
                ),
            );
        },
    };
    let ts = unix_now();
    let payload = build_relay_payload(identity.ledger_id.as_str(), subject, body, ts);
    let mail_body = fallback_email_body(payload.as_str());
    (
        RouterState::AwaitRelayFallback { dht_stored: dht_ok },
        RouterAction::SendRelay {
            to: addr,
            subject: String::from_str(fallback_subject()),
            body: mail_body,
        },
    )
}

/// Starts the direct relay attempt.
fn try_relay_direct(db: &Database, to: &str, subject: &str, body: &str) -> (r: (
    RouterState,
    RouterAction,
))
    requires
        db.wf(),
    ensures
        relay_direct_attempt_post(r, *db, to@, subject@, body@),
{
    let email = db.get_setting("relay_email");
    let password = db.get_setting("relay_password");
    let configured = match (&email, &password) {
        (Some(_), Some(_)) => true,
        _ => false,
    };
    if !configured {
        return (
            RouterState::Done,
            RouterAction::Finish(DeliveryResult::Failed(String::from_str("Relay not configured"))),
        );
    }
    let addr = if str_starts_with(to, "ledger:") {
        match db.get_contact(to) {
            Some(c) => match c.relay_address {
                Some(a) => Some(a),
                None => None,
            },
            None => None,
        }
    } else {
        Some(String::from_str(to))
    };
    match addr {
        Some(a) => (
            RouterState::AwaitRelayDirect,
            RouterAction::SendRelay {
                to: a,
                subject: String::from_str(subject),
                body: String::from_str(body),
            },
        ),
        None => (
            RouterState::Done,
            RouterAction::Finish(
                DeliveryResult::Failed(String::from_str("No relay address for contact")),
            ),
        ),
    }
}

/// Starts the peer-to-peer attempt.
fn try_p2p(
    identity: &LedgerIdentity,
    db: &Database,
    to: &str,
    subject: &str,
    body: &str,
    fb: bool,
) -> (r: (RouterState, RouterAction))
    requires
        identity.wf(),
        db.wf(),
    ensures
        p2p_attempt_post(r, *identity, *db, to@, subject@, body@, fb),
{
    let env = match build_outbound_envelope(identity, db, to, subject, body) {
        Ok(e) => e,
        Err(err) => {
            if fb {
                return try_relay_fallback(identity, db, to, subject, body, false);
            }
            let text = match err {
                LedgerError::NoContact => String::from_str("Recipient not in contacts"),
                LedgerError::BadKey => String::from_str("Invalid contact public key"),
                _ => String::from_str("Encryption failed: message too large"),
            };
            return (RouterState::Done, RouterAction::Finish(DeliveryResult::Failed(text)));
        },
    };
    let json = envelope_to_json(&env);
    (
        RouterState::AwaitPeers { envelope_json: json, fallback: fb },
        RouterAction::GetPeers,
    )
}

/// Starts the DHT store attempt.
fn try_dht(identity: &LedgerIdentity, db: &Database, to: &str, subject: &str, body: &str) -> (r: (
    RouterState,
    RouterAction,
))
    requires
        identity.wf(),
        db.wf(),
    ensures
        dht_attempt_post(r, *identity, *db, to@, subject@, body@),
{
    let env = match build_outbound_envelope(identity, db, to, subject, body) {
        Ok(e) => e,
        Err(_) => {
            return try_relay_fallback(identity, db, to, subject, body, false);
        },
    };
    let (key, value) = dht_store_request(to, &env);
    let ttl = dht_ttl_hours(db);
    (RouterState::AwaitDht, RouterAction::DhtPut { key, value, ttl_hours: ttl })
}

/// Starts routing one message.
///
/// `p2p_only` demands a ledger-id recipient and attempts direct delivery
/// alone; `relay_only` goes straight to the relay; anything else is `auto`:
/// a plain address goes to the relay, a ledger id tries the peer first and
/// falls back to the DHT and the relay.  The router never touches the
/// overlay for a `p2p_only` request to a non-ledger recipient.
pub fn route_start(
    identity: &LedgerIdentity,
    db: &Database,
    to: &str,
    subject: &str,
    body: &str,
    mode: &str,
) -> (r: (RouterState, RouterAction))
    requires
        identity.wf(),
        db.wf(),
    ensures
        mode@ == "p2p_only"@ && !is_ledger_to(to@) ==> r.0 is Done && (r.1 matches
            RouterAction::Finish(res) && res matches DeliveryResult::Failed(t) && t@
            == "P2P mode requires a Ledger ID recipient"@),
        mode@ == "p2p_only"@ && is_ledger_to(to@) ==> p2p_attempt_post(
            r,
            *identity,
            *db,
            to@,
            subject@,
            body@,
            false,
        ),
        mode@ == "relay_only"@ ==> relay_direct_attempt_post(r, *db, to@, subject@, body@),
        mode@ != "p2p_only"@ && mode@ != "relay_only"@ && !is_ledger_to(to@)
            ==> relay_direct_attempt_post(r, *db, to@, subject@, body@),
        mode@ != "p2p_only"@ && mode@ != "relay_only"@ && is_ledger_to(to@) ==> p2p_attempt_post(
            r,
            *identity,
            *db,
            to@,
            subject@,
            body@,
            true,
        ),
{
    proof {
        reveal_strlit("p2p_only");
        reveal_strlit("relay_only");
        assert("p2p_only"@ != "relay_only"@) by {
            assert("p2p_only"@.len() != "relay_only"@.len());
        }
    }
    let is_ledger = str_starts_with(to, "ledger:");
    if str_eq(mode, "p2p_only") {
        if !is_ledger {
            return (
                RouterState::Done,
                RouterAction::Finish(
                    DeliveryResult::Failed(
                        String::from_str("P2P mode requires a Ledger ID recipient"),
                    ),
                ),
            );
        }
        try_p2p(identity, db, to, subject, body, false)
    } else if str_eq(mode, "relay_only") {
        try_relay_direct(db, to, subject, body)
    } else {
        if is_ledger {
            try_p2p(identity, db, to, subject, body, true)
        } else {
            try_relay_direct(db, to, subject, body)
        }
    }
}

/// Feeds one outcome into the machine and takes the next step.
///
/// Peers in hand, the envelope goes to the first connected peer; no peers or
/// a failed send ends a strict attempt and cascades an auto attempt into the
/// DHT store and then the relay fallback, whose outcomes settle the final
/// verdict — the relay wins over a successful DHT store, and a failure of
/// both is the terminal failure.  An event that does not answer the pending
/// action ends routing with a failure.
pub fn route_step(
    identity: &LedgerIdentity,
    db: &Database,
    to: &str,
    subject: &str,
    body: &str,
    state: RouterState,
    event: RouterEvent,
) -> (r: (RouterState, RouterAction))
    requires
        identity.wf(),
        db.wf(),
    ensures
        state matches RouterState::AwaitPeers { envelope_json, fallback } ==> (event matches
            RouterEvent::Peers(ps) ==> (if ps@.len() == 0 {
            if fallback {
                dht_attempt_post(r, *identity, *db, to@, subject@, body@)
            } else {
                r.0 is Done && (r.1 matches RouterAction::Finish(res) && res matches
                    DeliveryResult::Failed(t) && t@ == "No connected peers"@)
            }
        } else {
            r.0 matches RouterState::AwaitSend { fallback: f2 } && f2 == fallback && (r.1 matches
                RouterAction::SendEnvelope { peer_id, envelope_json: ej } && peer_id@
                == ps@[0].peer_id@ && ej@ == envelope_json@)
        })),
        state matches RouterState::AwaitSend { fallback } ==> (event matches
            RouterEvent::SendOutcome(res) ==> (if res is Ok {
            r.0 is Done && (r.1 matches RouterAction::Finish(d) && d is P2pDirect)
        } else if fallback {
            dht_attempt_post(r, *identity, *db, to@, subject@, body@)
        } else {
            r.0 is Done && (r.1 matches RouterAction::Finish(d) && d matches
                DeliveryResult::Failed(t) && t@ == "P2P delivery failed"@)
        })),
        state is AwaitDht ==> (event matches RouterEvent::DhtOutcome(res)
            ==> relay_fallback_attempt_post(r, *identity, *db, to@, subject@, body@, res is Ok)),
        state matches RouterState::AwaitRelayFallback { dht_stored } ==> (event matches
            RouterEvent::RelayOutcome(res) ==> r.0 is Done && (if res is Ok {
            r.1 matches RouterAction::Finish(d) && d is RelayFallback
        } else if dht_stored {
            r.1 matches RouterAction::Finish(d) && d is DhtStored
        } else {
            r.1 matches RouterAction::Finish(d) && d matches DeliveryResult::Failed(t) && t@
                == "All delivery methods failed"@
        })),
        state is AwaitRelayDirect ==> (event matches RouterEvent::RelayOutcome(res) ==> r.0
            is Done && (if res is Ok {
            r.1 matches RouterAction::Finish(d) && d is RelayDirect
        } else {
            r.1 matches RouterAction::Finish(d) && d matches DeliveryResult::Failed(t) && t@
                == "Relay send failed: "@ + res->Err_0@
        })),
{
    match (state, event) {
        (RouterState::AwaitPeers { envelope_json, fallback }, RouterEvent::Peers(ps)) => {
            if ps.len() == 0 {
                if fallback {
                    try_dht(identity, db, to, subject, body)
                } else {
                    (
                        RouterState::Done,
                        RouterAction::Finish(
                            DeliveryResult::Failed(String::from_str("No connected peers")),
                        ),
                    )
                }
            } else {
                let peer_id = ps[0].peer_id.clone();
                (
                    RouterState::AwaitSend { fallback },
                    RouterAction::SendEnvelope { peer_id, envelope_json },
                )
            }
        },
        (RouterState::AwaitSend { fallback }, RouterEvent::SendOutcome(res)) => {
            match res {
                Ok(_) => (RouterState::Done, RouterAction::Finish(DeliveryResult::P2pDirect)),
                Err(_) => {
                    if fallback {
                        try_dht(identity, db, to, subject, body)
                    } else {
                        (
                            RouterState::Done,
                            RouterAction::Finish(
                                DeliveryResult::Failed(String::from_str("P2P delivery failed")),
                            ),
                        )
                    }
                },
            }
        },
        (RouterState::AwaitDht, RouterEvent::DhtOutcome(res)) => {
            let ok = match res {
                Ok(_) => true,
                Err(_) => false,
            };
            try_relay_fallback(identity, db, to, subject, body, ok)
        },
        (RouterState::AwaitRelayFallback { dht_stored }, RouterEvent::RelayOutcome(res)) => {
            match res {
                Ok(_) => (RouterState::Done, RouterAction::Finish(DeliveryResult::RelayFallback)),
                Err(_) => {
                    if dht_stored {
                        (RouterState::Done, RouterAction::Finish(DeliveryResult::DhtStored))
                    } else {
                        (
                            RouterState::Done,
                            RouterAction::Finish(
                                DeliveryResult::Failed(
                                    String::from_str("All delivery methods failed"),
                                ),
                            ),
                        )
                    }
                },
            }
        },
        (RouterState::AwaitRelayDirect, RouterEvent::RelayOutcome(res)) => {
            match res {
                Ok(_) => (RouterState::Done, RouterAction::Finish(DeliveryResult::RelayDirect)),
                Err(e) => {
                    let mut t = String::from_str("Relay send failed: ");
                    t.append(e.as_str());
                    (RouterState::Done, RouterAction::Finish(DeliveryResult::Failed(t)))
                },
            }
        },
        _ => (
            RouterState::Done,
            RouterAction::Finish(DeliveryResult::Failed(String::from_str("unexpected router event"))),
        ),
    }
}

/// The delivery method a routing outcome records for the sent copy.
pub open spec fn sent_method_of(r: DeliveryResult) -> DeliveryMethod {
    match r {
        DeliveryResult::P2pDirect => DeliveryMethod::P2p,
        DeliveryResult::DhtStored => DeliveryMethod::P2p,
        DeliveryResult::RelayFallback => DeliveryMethod::Fallback,
        DeliveryResult::RelayDirect => DeliveryMethod::MailRelay,
        DeliveryResult::Failed(_) => DeliveryMethod::P2p,
    }
}

/// Files the sent copy of a routed message: nothing for a failed delivery;
/// otherwise a read message in the sent folder, marked encrypted exactly
/// when the recipient is a ledger id.
pub fn record_sent_message(
    db: &mut Database,
    identity: &LedgerIdentity,
    to: &str,
    subject: &str,
    body: &str,
    result: &DeliveryResult,
) -> (r: Option<Message>)
    requires
        old(db).wf(),
        identity.wf(),
    ensures
        final(db).wf(),
        result matches DeliveryResult::Failed(_) ==> r is None && *final(db) == *old(db),
        !(result matches DeliveryResult::Failed(_)) ==> (r matches Some(m) && m@.from_id
            == identity.ledger_id@ && m@.to_id == to@ && m@.subject == subject@ && m@.body == body@
            && m@.delivery_method == sent_method_of(*result) && m@.is_read == true && m@.folder
            == Folder::Sent && m@.signature is None && m@.encrypted == is_ledger_to(to@)
            && m@.id.len() == 36 && final(db).messages().contains(m@) && (forall|x: MessageView|
            old(db).messages().contains(x) && x.id != m@.id ==> final(db).messages().contains(
                x,
            ))),
{
    match result {
        DeliveryResult::Failed(_) => None,
        _ => {
            let msg = Message {
                id: new_uuid_string(),
                from_id: identity.ledger_id.clone(),
                to_id: String::from_str(to),
                subject: String::from_str(subject),
                body: String::from_str(body),
                timestamp: unix_now(),
                delivery_method: match result {
                    DeliveryResult::P2pDirect => DeliveryMethod::P2p,
                    DeliveryResult::DhtStored => DeliveryMethod::P2p,
                    DeliveryResult::RelayFallback => DeliveryMethod::Fallback,
                    DeliveryResult::RelayDirect => DeliveryMethod::MailRelay,
                    DeliveryResult::Failed(_) => DeliveryMethod::P2p,
                },
                is_read: true,
                folder: Folder::Sent,
                signature: None,
                encrypted: str_starts_with(to, "ledger:"),
            };
            db.insert_message(&msg);
            Some(msg.clone())
        },
    }
}

} // verus!
