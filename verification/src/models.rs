//! The data model: messages, envelopes, contacts, settings, and the
//! request/response records of the control surface.

use vstd::prelude::*;
use crate::primitives::{new_uuid_string, unix_now};
use crate::strutil::str_eq;

verus! {

/// How a message was (or is to be) delivered.
#[derive(Clone, Copy, Debug, PartialEq, Eq, Structural)]
pub enum DeliveryMethod {
    P2p,
    MailRelay,
    Fallback,
}

/// The storage text for a delivery method.
pub open spec fn delivery_method_str(m: DeliveryMethod) -> Seq<char> {
    match m {
        DeliveryMethod::P2p => "p2p"@,
        DeliveryMethod::MailRelay => "relay"@,
        DeliveryMethod::Fallback => "fallback"@,
    }
}

/// The delivery method a storage text denotes; unrecognized text falls back
/// to peer-to-peer.
pub open spec fn delivery_method_of_str(s: Seq<char>) -> DeliveryMethod {
    if s == "p2p"@ {
        DeliveryMethod::P2p
    } else if s == "relay"@ {
        DeliveryMethod::MailRelay
    } else if s == "fallback"@ {
        DeliveryMethod::Fallback
    } else {
        DeliveryMethod::P2p
    }
}

impl DeliveryMethod {
    /// Parses the storage text of a delivery method.
    pub fn from_str(s: &str) -> (r: Self)
        ensures
            r == delivery_method_of_str(s@),
    {
        if str_eq(s, "p2p") {
            DeliveryMethod::P2p
        } else if str_eq(s, "relay") {
            DeliveryMethod::MailRelay
        } else if str_eq(s, "fallback") {
            DeliveryMethod::Fallback
        } else {
            DeliveryMethod::P2p
        }
    }

    /// The storage text of a delivery method.
    pub fn to_str(&self) -> (r: &'static str)
        ensures
            r@ == delivery_method_str(*self),
    {
        match self {
            DeliveryMethod::P2p => "p2p",
            DeliveryMethod::MailRelay => "relay",
            DeliveryMethod::Fallback => "fallback",
        }
    }
}

/// The folder a stored message lives in.
#[derive(Clone, Copy, Debug, PartialEq, Eq, Structural)]
pub enum Folder {
    Inbox,
    Sent,
    Drafts,
}

/// The storage text for a folder.
pub open spec fn folder_str(f: Folder) -> Seq<char> {
    match f {
        Folder::Inbox => "inbox"@,
        Folder::Sent => "sent"@,
        Folder::Drafts => "drafts"@,
    }
}

/// The folder a storage text denotes; unrecognized text falls back to the
/// inbox.
pub open spec fn folder_of_str(s: Seq<char>) -> Folder {
    if s == "inbox"@ {
        Folder::Inbox
    } else if s == "sent"@ {
        Folder::Sent
    } else if s == "drafts"@ {
        Folder::Drafts
    } else {
        Folder::Inbox
    }
}

impl Folder {
    /// Parses the storage text of a folder.
    pub fn from_str(s: &str) -> (r: Self)
        ensures
            r == folder_of_str(s@),
    {
        if str_eq(s, "inbox") {
            Folder::Inbox
        } else if str_eq(s, "sent") {
            Folder::Sent
        } else if str_eq(s, "drafts") {
            Folder::Drafts
        } else {
            Folder::Inbox
        }
    }

    /// The storage text of a folder.
    pub fn to_str(&self) -> (r: &'static str)
        ensures
            r@ == folder_str(*self),
    {
        match self {
            Folder::Inbox => "inbox",
            Folder::Sent => "sent",
            Folder::Drafts => "drafts",
        }
    }
}

/// The user's delivery-mode preference.
#[derive(Clone, Copy, Debug, PartialEq, Eq, Structural)]
pub enum DeliveryMode {
    P2pOnly,
    RelayOnly,
    Auto,
}

/// The view of an optional string.
pub open spec fn opt_view(o: Option<String>) -> Option<Seq<char>> {
    match o {
        Some(s) => Some(s@),
        None => None,
    }
}

/// A stored message: the decrypted, locally persisted unit.
pub struct Message {
    pub id: String,
    pub from_id: String,
    pub to_id: String,
    pub subject: String,
    pub body: String,
    pub timestamp: i64,
    pub delivery_method: DeliveryMethod,
    pub is_read: bool,
    pub folder: Folder,
    pub signature: Option<String>,
    pub encrypted: bool,
}

/// The mathematical content of a message.
#[verifier::ext_equal]
pub struct MessageView {
    pub id: Seq<char>,
    pub from_id: Seq<char>,
    pub to_id: Seq<char>,
    pub subject: Seq<char>,
    pub body: Seq<char>,
    pub timestamp: i64,
    pub delivery_method: DeliveryMethod,
    pub is_read: bool,
    pub folder: Folder,
    pub signature: Option<Seq<char>>,
    pub encrypted: bool,
}

impl View for Message {
    type V = MessageView;

    open spec fn view(&self) -> MessageView {
        MessageView {
            id: self.id@,
            from_id: self.from_id@,
            to_id: self.to_id@,
            subject: self.subject@,
            body: self.body@,
            timestamp: self.timestamp,
            delivery_method: self.delivery_method,
            is_read: self.is_read,
            folder: self.folder,
            signature: opt_view(self.signature),
            encrypted: self.encrypted,
        }
    }
}

impl Clone for Message {
    fn clone(&self) -> (res: Self)
        ensures
            res == *self,
    {
        Message {
            id: self.id.clone(),
            from_id: self.from_id.clone(),
            to_id: self.to_id.clone(),
            subject: self.subject.clone(),
            body: self.body.clone(),
            timestamp: self.timestamp,
            delivery_method: self.delivery_method,
            is_read: self.is_read,
            folder: self.folder,
            signature: match &self.signature {
                Some(s) => Some(s.clone()),
                None => None,
            },
            encrypted: self.encrypted,
        }
    }
}

impl Message {
    /// A fresh outbound message: unread, unencrypted, in the inbox, carrying
    /// a new identifier and the current time.
    pub fn new(from_id: String, to_id: String, subject: String, body: String) -> (r: Self)
        ensures
            r.id@.len() == 36,
            r.from_id@ == from_id@,
            r.to_id@ == to_id@,
            r.subject@ == subject@,
            r.body@ == body@,
            r.delivery_method == DeliveryMethod::P2p,
            r.is_read == false,
            r.folder == Folder::Inbox,
            r.signature is None,
            r.encrypted == false,
    {
        Message {
            id: new_uuid_string(),
            from_id,
            to_id,
            subject,
            body,
            timestamp: unix_now(),
            delivery_method: DeliveryMethod::P2p,
            is_read: false,
            folder: Folder::Inbox,
            signature: None,
            encrypted: false,
        }
    }
}

/// The encrypted envelope carried between nodes; every binary field is
/// base64 text.
pub struct EncryptedEnvelope {
    pub id: String,
    pub from_ledger_id: String,
    pub to_ledger_id: String,
    pub ephemeral_pubkey: String,
    pub encrypted_body: String,
    pub nonce: String,
    pub signature: String,
    pub timestamp: i64,
    pub subject_hint: String,
}

/// The mathematical content of an envelope.
#[verifier::ext_equal]
pub struct EnvelopeView {
    pub id: Seq<char>,
    pub from_ledger_id: Seq<char>,
    pub to_ledger_id: Seq<char>,
    pub ephemeral_pubkey: Seq<char>,
    pub encrypted_body: Seq<char>,
    pub nonce: Seq<char>,
    pub signature: Seq<char>,
    pub timestamp: i64,
    pub subject_hint: Seq<char>,
}

impl View for EncryptedEnvelope {
    type V = EnvelopeView;

    open spec fn view(&self) -> EnvelopeView {
        EnvelopeView {
            id: self.id@,
            from_ledger_id: self.from_ledger_id@,
            to_ledger_id: self.to_ledger_id@,
            ephemeral_pubkey: self.ephemeral_pubkey@,
            encrypted_body: self.encrypted_body@,
            nonce: self.nonce@,
            signature: self.signature@,
            timestamp: self.timestamp,
            subject_hint: self.subject_hint@,
        }
    }
}

impl Clone for EncryptedEnvelope {
    fn clone(&self) -> (res: Self)
        ensures
            res == *self,
    {
        EncryptedEnvelope {
            id: self.id.clone(),
            from_ledger_id: self.from_ledger_id.clone(),
            to_ledger_id: self.to_ledger_id.clone(),
            ephemeral_pubkey: self.ephemeral_pubkey.clone(),
            encrypted_body: self.encrypted_body.clone(),
            nonce: self.nonce.clone(),
            signature: self.signature.clone(),
            timestamp: self.timestamp,
            subject_hint: self.subject_hint.clone(),
        }
    }
}

/// A contact: the recipient key material and addresses filed under a ledger id.
pub struct Contact {
    pub ledger_id: String,
    pub public_key: String,
    pub display_name: Option<String>,
    pub relay_address: Option<String>,
}

/// The mathematical content of a contact.
#[verifier::ext_equal]
pub struct ContactView {
    pub ledger_id: Seq<char>,
    pub public_key: Seq<char>,
    pub display_name: Option<Seq<char>>,
    pub relay_address: Option<Seq<char>>,
}

impl View for Contact {
    type V = ContactView;

    open spec fn view(&self) -> ContactView {
        ContactView {
            ledger_id: self.ledger_id@,
            public_key: self.public_key@,
            display_name: opt_view(self.display_name),
            relay_address: opt_view(self.relay_address),
        }
    }
}

impl Clone for Contact {
    fn clone(&self) -> (res: Self)
        ensures
            res == *self,
    {
        Contact {
            ledger_id: self.ledger_id.clone(),
            public_key: self.public_key.clone(),
            display_name: match &self.display_name {
                Some(s) => Some(s.clone()),
                None => None,
            },
            relay_address: match &self.relay_address {
                Some(s) => Some(s.clone()),
                None => None,
            },
        }
    }
}

/// A request to send a message through the router.
pub struct SendMessageRequest {
    pub to: String,
    pub subject: String,
    pub body: String,
    pub mode: Option<String>,
}

/// A request to dial a peer by multiaddress.
pub struct ConnectPeerRequest {
    pub multiaddr: String,
}

/// Mail-relay account configuration.
pub struct GmailConfig {
    pub email: String,
    pub app_password: String,
    pub imap_host: Option<String>,
    pub smtp_host: Option<String>,
}

impl Clone for GmailConfig {
    fn clone(&self) -> (res: Self)
        ensures
            res == *self,
    {
        GmailConfig {
            email: self.email.clone(),
            app_password: self.app_password.clone(),
            imap_host: match &self.imap_host {
                Some(s) => Some(s.clone()),
                None => None,
            },
            smtp_host: match &self.smtp_host {
                Some(s) => Some(s.clone()),
                None => None,
            },
        }
    }
}

/// A request to send plain mail through the relay.
pub struct GmailSendRequest {
    pub to: String,
    pub subject: String,
    pub body: String,
}

/// A settings update: absent fields are left unchanged.
pub struct Settings {
    pub delivery_mode: Option<String>,
    pub tor_enabled: Option<bool>,
    pub dht_ttl_hours: Option<u64>,
}

/// A connected peer as reported by the overlay.
pub struct PeerInfo {
    pub peer_id: String,
    pub address: String,
    pub ledger_id: Option<String>,
}

impl Clone for PeerInfo {
    fn clone(&self) -> (res: Self)
        ensures
            res == *self,
    {
        PeerInfo {
            peer_id: self.peer_id.clone(),
            address: self.address.clone(),
            ledger_id: match &self.ledger_id {
                Some(s) => Some(s.clone()),
                None => None,
            },
        }
    }
}

/// The node's public identity as shown to the frontend.
pub struct IdentityInfo {
    pub ledger_id: String,
    pub public_key: String,
    pub peer_id: String,
}

} // verus!
