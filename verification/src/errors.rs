//! Error kinds surfaced by the library core.

use vstd::prelude::*;
use vstd::string::*;

verus! {

/// Every failure the core can report.  Variants that depend on an outside
/// condition (overlay, relay, store, parsing) carry a detail string.
#[derive(Debug)]
pub enum LedgerError {
    /// A persisted seed was not exactly 32 bytes.
    BadSeed,
    /// A ledger id had no `ledger:` prefix or invalid base58 content.
    BadLedgerId,
    /// A public key was malformed (wrong length or not a valid point).
    BadKey,
    /// A signature was malformed or did not verify.
    BadSig,
    /// Authenticated decryption failed, or the ciphertext or nonce was malformed.
    BadCiphertext,
    /// Decrypted bytes were not valid UTF-8.
    BadEncoding,
    /// A required setting (relay credentials) was absent.
    NotConfigured,
    /// The recipient is not in the contact store.
    NoContact,
    /// No connected peer was available.
    NoPeer,
    /// The overlay reported a failure.
    OverlayError(String),
    /// A DHT operation failed.
    DhtError(String),
    /// The mail relay reported a failure.
    RelayError(String),
    /// The message store reported a failure.
    StoreError(String),
    /// A file or directory could not be read or created.
    IoError(String),
    /// Input text could not be parsed.
    ParseError(String),
}

/// The fixed text for each error kind; detail-carrying kinds append
/// their detail after a colon.
pub open spec fn error_text(e: LedgerError) -> Seq<char> {
    match e {
        LedgerError::BadSeed => "invalid seed: expected 32 bytes"@,
        LedgerError::BadLedgerId => "invalid ledger id"@,
        LedgerError::BadKey => "invalid public key"@,
        LedgerError::BadSig => "signature verification failed"@,
        LedgerError::BadCiphertext => "decryption failed"@,
        LedgerError::BadEncoding => "plaintext is not valid UTF-8"@,
        LedgerError::NotConfigured => "relay not configured"@,
        LedgerError::NoContact => "recipient not in contacts"@,
        LedgerError::NoPeer => "no connected peers"@,
        LedgerError::OverlayError(d) => "overlay error: "@ + d@,
        LedgerError::DhtError(d) => "dht error: "@ + d@,
        LedgerError::RelayError(d) => "relay error: "@ + d@,
        LedgerError::StoreError(d) => "store error: "@ + d@,
        LedgerError::IoError(d) => "io error: "@ + d@,
        LedgerError::ParseError(d) => "parse error: "@ + d@,
    }
}

impl LedgerError {
    /// Human-readable description of the error.
    pub fn message(&self) -> (r: String)
        ensures
            r@ == error_text(*self),
    {
        match self {
            LedgerError::BadSeed => String::from_str("invalid seed: expected 32 bytes"),
            LedgerError::BadLedgerId => String::from_str("invalid ledger id"),
            LedgerError::BadKey => String::from_str("invalid public key"),
            LedgerError::BadSig => String::from_str("signature verification failed"),
            LedgerError::BadCiphertext => String::from_str("decryption failed"),
            LedgerError::BadEncoding => String::from_str("plaintext is not valid UTF-8"),
            LedgerError::NotConfigured => String::from_str("relay not configured"),
            LedgerError::NoContact => String::from_str("recipient not in contacts"),
            LedgerError::NoPeer => String::from_str("no connected peers"),
            LedgerError::OverlayError(d) => {
                let mut s = String::from_str("overlay error: ");
                s.append(d.as_str());
                s
            },
            LedgerError::DhtError(d) => {
                let mut s = String::from_str("dht error: ");
                s.append(d.as_str());
                s
            },
            LedgerError::RelayError(d) => {
                let mut s = String::from_str("relay error: ");
                s.append(d.as_str());
                s
            },
            LedgerError::StoreError(d) => {
                let mut s = String::from_str("store error: ");
                s.append(d.as_str());
                s
            },
            LedgerError::IoError(d) => {
                let mut s = String::from_str("io error: ");
                s.append(d.as_str());
                s
            },
            LedgerError::ParseError(d) => {
                let mut s = String::from_str("parse error: ");
                s.append(d.as_str());
                s
            },
        }
    }
}

} // verus!
