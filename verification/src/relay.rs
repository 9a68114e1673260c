//! The mail-relay fallback format: the payload document, the framed mail
//! body with its begin/end markers, the marker extraction used on inbound
//! mail, and the classification of fetched mail.

use vstd::prelude::*;
use vstd::string::*;
use crate::json::{json_escaped, push_escaped};
use crate::models::{Message, DeliveryMethod, Folder};
use crate::primitives::{new_uuid_string, unix_now};
use crate::strutil::{
    str_to_chars, chars_to_string, find_from, find_sub, trim_vec, trimmed, subvec, dec_int,
    push_str_chars, push_i64_dec,
};

verus! {

/// The subject line that marks an encrypted fallback mail.
pub fn fallback_subject() -> (r: &'static str)
    ensures
        r@ == "[Ledger Encrypted Fallback]"@,
{
    "[Ledger Encrypted Fallback]"
}

/// The payload document carried inside a fallback mail.
pub open spec fn relay_payload_json(
    from: Seq<char>,
    subject: Seq<char>,
    body: Seq<char>,
    ts: i64,
) -> Seq<char> {
    "{\"from\":\""@ + json_escaped(from) + seq!['"'] + ",\"subject\":\""@ + json_escaped(subject)
        + seq!['"'] + ",\"body\":\""@ + json_escaped(body) + seq!['"'] + ",\"timestamp\":"@
        + dec_int(ts as int) + "}"@
}

/// Renders the fallback payload document.
pub fn build_relay_payload(from: &str, subject: &str, body: &str, ts: i64) -> (r: String)
    ensures
        r@ == relay_payload_json(from@, subject@, body@, ts),
{
    let mut out: Vec<char> = Vec::new();
    push_str_chars(&mut out, "{\"from\":\"");
    push_escaped(&mut out, from);
    out.push('"');
    push_str_chars(&mut out, ",\"subject\":\"");
    push_escaped(&mut out, subject);
    out.push('"');
    push_str_chars(&mut out, ",\"body\":\"");
    push_escaped(&mut out, body);
    out.push('"');
    push_str_chars(&mut out, ",\"timestamp\":");
    push_i64_dec(&mut out, ts);
    push_str_chars(&mut out, "}");
    proof {
        assert(out@ =~= relay_payload_json(from@, subject@, body@, ts));
    }
    chars_to_string(&out)
}

/// The framed body of a fallback mail.
pub open spec fn fallback_body_of(payload: Seq<char>) -> Seq<char> {
    "This message was sent by the Ledger encrypted mail client.\nThe recipient's Ledger node was unreachable, so this encrypted fallback was sent.\n\n--- BEGIN LEDGER ENCRYPTED MESSAGE ---\n"@
        + payload + "\n--- END LEDGER ENCRYPTED MESSAGE ---\n"@
}

/// Frames an encrypted payload between the begin and end markers.
pub fn fallback_email_body(payload: &str) -> (r: String)
    ensures
        r@ == fallback_body_of(payload@),
{
    let mut s = String::from_str(
        "This message was sent by the Ledger encrypted mail client.\nThe recipient's Ledger node was unreachable, so this encrypted fallback was sent.\n\n--- BEGIN LEDGER ENCRYPTED MESSAGE ---\n",
    );
    s.append(payload);
    s.append("\n--- END LEDGER ENCRYPTED MESSAGE ---\n");
    s
}

/// What marker extraction yields: the text between the first begin marker
/// and the first end marker, trimmed; nothing when a marker is missing, the
/// markers are out of order, or the text is empty.
pub open spec fn extract_payload_spec(body: Seq<char>) -> Option<Seq<char>> {
    let sm = "--- BEGIN LEDGER ENCRYPTED MESSAGE ---"@;
    let em = "--- END LEDGER ENCRYPTED MESSAGE ---"@;
    match find_from(body, sm, 0) {
        None => None,
        Some(s) => match find_from(body, em, 0) {
            None => None,
            Some(e) => if s + sm.len() <= e {
                let t = trimmed(body.subrange(s + sm.len(), e));
                if t.len() == 0 {
                    None
                } else {
                    Some(t)
                }
            } else {
                None
            },
        },
    }
}

/// Extracts the encrypted payload from a fallback mail body.
pub fn extract_encrypted_payload(body: &str) -> (r: Option<String>)
    ensures
        r is Some <==> extract_payload_spec(body@) is Some,
        r matches Some(p) ==> extract_payload_spec(body@) == Some(p@),
{
    let chars = str_to_chars(body);
    let sm = str_to_chars("--- BEGIN LEDGER ENCRYPTED MESSAGE ---");
    let em = str_to_chars("--- END LEDGER ENCRYPTED MESSAGE ---");
    let start = match find_sub(&chars, &sm, 0) {
        Some(s) => s,
        None => {
            return None;
        },
    };
    let endpos = match find_sub(&chars, &em, 0) {
        Some(e) => e,
        None => {
            return None;
        },
    };
    let total = chars.len();
    proof {
        lemma_find_in_range(chars@, sm@, 0, start as int);
        lemma_find_in_range(chars@, em@, 0, endpos as int);
        assert(start + sm@.len() <= total);
    }
    let after = start + sm.len();
    if after > endpos {
        return None;
    }
    let mid = subvec(&chars, after, endpos);
    let t = trim_vec(&mid);
    if t.len() == 0 {
        return None;
    }
    Some(chars_to_string(&t))
}

/// A found occurrence lies within the text.
proof fn lemma_find_in_range(s: Seq<char>, pat: Seq<char>, from: int, found: int)
    requires
        find_from(s, pat, from) == Some(found),
        0 <= from,
    ensures
        from <= found,
        found + pat.len() <= s.len(),
    decreases s.len() - from,
{
    if from + pat.len() > s.len() {
        assert(false);
    } else if pat.len() == 0 || (0 <= from && from + pat.len() <= s.len() && s.subrange(
        from,
        from + pat.len(),
    ) == pat) {
    } else {
        lemma_find_in_range(s, pat, from + 1, found);
    }
}

/// Classifies one fetched relay mail: mail whose subject carries the
/// fallback marker arrived encrypted through the fallback path, everything
/// else is plain relay mail.  The result is a fresh unread inbox message.
pub fn classify_inbound_mail(from: String, to: String, subject: String, body: String) -> (r:
    Message)
    ensures
        r.id@.len() == 36,
        r.from_id@ == from@,
        r.to_id@ == to@,
        r.subject@ == subject@,
        r.body@ == body@,
        r.is_read == false,
        r.folder == Folder::Inbox,
        r.signature is None,
        (find_from(subject@, "[Ledger Encrypted Fallback]"@, 0) is Some ==> r.delivery_method
            == DeliveryMethod::Fallback && r.encrypted == true),
        (find_from(subject@, "[Ledger Encrypted Fallback]"@, 0) is None ==> r.delivery_method
            == DeliveryMethod::MailRelay && r.encrypted == false),
{
    let subject_chars = str_to_chars(subject.as_str());
    let marker = str_to_chars("[Ledger Encrypted Fallback]");
    let is_fallback = match find_sub(&subject_chars, &marker, 0) {
        Some(_) => true,
        None => false,
    };
    Message {
        id: new_uuid_string(),
        from_id: from,
        to_id: to,
        subject,
        body,
        timestamp: unix_now(),
        delivery_method: if is_fallback {
            DeliveryMethod::Fallback
        } else {
            DeliveryMethod::MailRelay
        },
        is_read: false,
        folder: Folder::Inbox,
        signature: None,
        encrypted: is_fallback,
    }
}

} // verus!
