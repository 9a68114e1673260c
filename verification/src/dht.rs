//! The DHT store-and-forward adapter: the key space, the stored value
//! format, and the record expiry arithmetic.
//!
//! The key space is content-addressed by recipient alone, so at most one
//! pending envelope per recipient is held at a time; a later store
//! overwrites an earlier one.

use vstd::prelude::*;
use vstd::string::*;
use vstd::utf8::*;
use crate::errors::LedgerError;
use crate::json::{envelope_json, envelope_to_json, envelope_from_json};
use crate::models::{EncryptedEnvelope, EnvelopeView};
use crate::encoding::bytes_to_string;
use vstd::slice::slice_to_vec;

verus! {

/// The DHT key under which envelopes for `ledger_id` wait.
pub open spec fn dht_key_of(ledger_id: Seq<char>) -> Seq<u8> {
    encode_utf8("ledger:msg:"@ + ledger_id)
}

/// The key bytes for a recipient's pending envelopes.
pub fn dht_key_for(ledger_id: &str) -> (r: Vec<u8>)
    ensures
        r@ == dht_key_of(ledger_id@),
{
    let mut s = String::from_str("ledger:msg:");
    s.append(ledger_id);
    s.as_str().as_bytes_vec()
}

/// The key and value of a DHT store request: the key derived from the
/// recipient and the envelope's canonical document as UTF-8 bytes.
pub fn dht_store_request(recipient_ledger_id: &str, envelope: &EncryptedEnvelope) -> (r: (
    Vec<u8>,
    Vec<u8>,
))
    ensures
        r.0@ == dht_key_of(recipient_ledger_id@),
        r.1@ == encode_utf8(envelope_json(envelope@)),
{
    let key = dht_key_for(recipient_ledger_id);
    let json = envelope_to_json(envelope);
    let value = json.as_str().as_bytes_vec();
    (key, value)
}

/// Decodes a retrieved DHT value as a single pending envelope.  The value
/// must be the UTF-8 bytes of a canonical envelope document; the result is a
/// one-element list, mirroring the single-slot key space.
pub fn envelopes_from_dht_value(data: &[u8]) -> (r: Result<Vec<EncryptedEnvelope>, LedgerError>)
    ensures
        r matches Ok(list) ==> list@.len() == 1 && data@ == encode_utf8(
            envelope_json(list@[0]@),
        ),
        forall|e: EnvelopeView|
            data@ == encode_utf8(envelope_json(e)) ==> (r matches Ok(list) && list@[0]@ == e),
        r matches Err(err) ==> (err is BadEncoding || err is ParseError),
{
    let text = match bytes_to_string(slice_to_vec(data)) {
        Ok(t) => t,
        Err(_) => {
            proof {
                assert forall|e: EnvelopeView|
                    data@ != encode_utf8(envelope_json(e)) by {
                    if data@ == encode_utf8(envelope_json(e)) {
                        encode_utf8_valid_utf8(envelope_json(e));
                    }
                }
            }
            return Err(LedgerError::BadEncoding);
        },
    };
    proof {
        vstd::utf8::decode_utf8_encode_utf8(data@);
        assert forall|e: EnvelopeView|
            data@ == encode_utf8(envelope_json(e)) implies text@ == envelope_json(e) by {
            encode_utf8_decode_utf8(envelope_json(e));
        }
    }
    match envelope_from_json(text.as_str()) {
        Ok(env) => {
            proof {
                assert(encode_utf8(text@) == data@);
            }
            let mut list: Vec<EncryptedEnvelope> = Vec::new();
            list.push(env);
            Ok(list)
        },
        Err(e) => Err(e),
    }
}

/// When a stored record expires: the store time plus the time-to-live.
pub open spec fn record_expiry_of(now: i64, ttl_hours: u64) -> int {
    now + ttl_hours * 3600
}

/// The expiry of a record stored at `now` with a time-to-live of
/// `ttl_hours` hours.
pub fn record_expiry(now: i64, ttl_hours: u64) -> (r: i64)
    requires
        0 <= now,
        record_expiry_of(now, ttl_hours) <= i64::MAX,
    ensures
        r == record_expiry_of(now, ttl_hours),
{
    now + (ttl_hours * 3600) as i64
}

} // verus!
