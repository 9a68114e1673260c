//! The node's message protocol: the request and response records carried
//! over the `/ledger/msg/1.0.0` exchange, and the inbound envelope handler
//! that the overlay event loop runs for every request.

use vstd::prelude::*;
use vstd::string::*;
use crate::envelope::{decrypt_envelope, decrypt_outcome};
use crate::json::{envelope_json, envelope_from_json};
use crate::keys::LedgerIdentity;
use crate::models::{Message, MessageView, EnvelopeView, DeliveryMethod, Folder};
use crate::store::Database;

verus! {

/// A request carried to a peer: one envelope as its canonical document.
pub struct LedgerRequest {
    pub envelope_json: String,
}

/// The peer's answer: whether the envelope was cryptographically accepted,
/// with the reason when it was not.
pub struct LedgerResponse {
    pub accepted: bool,
    pub error: Option<String>,
}

/// The message a node files for an inbound envelope it could open: an
/// unread, encrypted inbox entry addressed to the node itself, keeping the
/// envelope's id, timestamp, subject hint and signature.
pub open spec fn inbound_message_view(e: EnvelopeView, own_ledger_id: Seq<char>, body: Seq<char>)
    -> MessageView {
    MessageView {
        id: e.id,
        from_id: e.from_ledger_id,
        to_id: own_ledger_id,
        subject: e.subject_hint,
        body: body,
        timestamp: e.timestamp,
        delivery_method: DeliveryMethod::P2p,
        is_read: false,
        folder: Folder::Inbox,
        signature: Some(e.signature),
        encrypted: true,
    }
}

/// Handles one inbound envelope request: parse, open, file.
///
/// The envelope is accepted exactly when its document parses and it opens
/// for this identity; the decrypted message then joins the inbox.  On any
/// failure the reply carries the reason and the store is untouched.
pub fn handle_inbound_envelope(
    identity: &LedgerIdentity,
    db: &mut Database,
    request_json: &str,
) -> (r: LedgerResponse)
    requires
        identity.wf(),
        old(db).wf(),
    ensures
        final(db).wf(),
        r.accepted <==> exists|e: EnvelopeView|
            request_json@ == envelope_json(e) && decrypt_outcome(
                identity.encryption_secret@,
                e,
            ) is Ok,
        !r.accepted ==> r.error is Some && *final(db) == *old(db),
        forall|e: EnvelopeView|
            request_json@ == envelope_json(e) && decrypt_outcome(
                identity.encryption_secret@,
                e,
            ) is Ok ==> r.accepted && r.error is None && final(db).messages().contains(
                inbound_message_view(
                    e,
                    identity.ledger_id@,
                    decrypt_outcome(identity.encryption_secret@, e)->Ok_0,
                ),
            ) && (forall|m: MessageView|
                old(db).messages().contains(m) && m.id != e.id ==> final(db).messages().contains(
                    m,
                )),
{
    let envelope = match envelope_from_json(request_json) {
        Ok(env) => env,
        Err(err) => {
            return LedgerResponse { accepted: false, error: Some(err.message()) };
        },
    };
    let plaintext = match decrypt_envelope(identity, &envelope) {
        Ok(p) => p,
        Err(err) => {
            proof {
                assert forall|e: EnvelopeView|
                    request_json@ == envelope_json(e) implies decrypt_outcome(
                    identity.encryption_secret@,
                    e,
                ) is Err by {
                    assert(envelope@ == e);
                }
            }
            return LedgerResponse { accepted: false, error: Some(err.message()) };
        },
    };
    let msg = Message {
        id: envelope.id,
        from_id: envelope.from_ledger_id,
        to_id: chars_copy(&identity.ledger_id),
        subject: envelope.subject_hint,
        body: plaintext,
        timestamp: envelope.timestamp,
        delivery_method: DeliveryMethod::P2p,
        is_read: false,
        folder: Folder::Inbox,
        signature: Some(envelope.signature),
        encrypted: true,
    };
    db.insert_message(&msg);
    LedgerResponse { accepted: true, error: None }
}

/// A fresh string with the same characters.
fn chars_copy(s: &String) -> (r: String)
    ensures
        r@ == s@,
{
    s.clone()
}

} // verus!
