//! The message store: messages, contacts and settings as verified in-memory
//! tables with the query semantics the node relies on — insert-or-replace
//! keyed rows, most-recent-first message listing, idempotent defaults.
//! Writing the tables to disk is the embedder's concern.

use vstd::prelude::*;
use vstd::string::*;
use crate::models::{Message, MessageView, Contact, ContactView, Settings, Folder, folder_str};
use crate::strutil::{str_eq, chars_to_string, push_u64_dec, dec_nat, bytes_le, lemma_bytes_le_total, lemma_bytes_le_trans};
use vstd::utf8::encode_utf8;

verus! {

/// One settings row.
pub struct Setting {
    pub key: String,
    pub value: String,
}

impl Clone for Setting {
    fn clone(&self) -> (res: Self)
        ensures
            res == *self,
    {
        Setting { key: self.key.clone(), value: self.value.clone() }
    }
}

/// The settings rows as a key-value map; later rows win.
pub open spec fn settings_map_of(s: Seq<(Seq<char>, Seq<char>)>) -> Map<Seq<char>, Seq<char>>
    decreases s.len(),
{
    if s.len() == 0 {
        Map::empty()
    } else {
        settings_map_of(s.drop_last()).insert(s.last().0, s.last().1)
    }
}


/// The messages whose id differs from `id`.
pub open spec fn not_msg_id(id: Seq<char>) -> spec_fn(MessageView) -> bool {
    |m: MessageView| m.id != id
}

/// The messages stored in the folder with text `f`.
pub open spec fn folder_is(f: Seq<char>) -> spec_fn(MessageView) -> bool {
    |m: MessageView| folder_str(m.folder) == f
}

/// The contacts whose ledger id differs from `id`.
pub open spec fn not_contact_id(id: Seq<char>) -> spec_fn(ContactView) -> bool {
    |c: ContactView| c.ledger_id != id
}

/// The settings rows whose key differs from `k`.
pub open spec fn row_not_key(k: Seq<char>) -> spec_fn((Seq<char>, Seq<char>)) -> bool {
    |row: (Seq<char>, Seq<char>)| row.0 != k
}

/// Marking the message with the given id as read.
pub open spec fn mark_with(id: Seq<char>) -> spec_fn(MessageView) -> MessageView {
    |m: MessageView| mark_read_view(m, id)
}

/// Messages are ordered most-recent-first and have pairwise distinct ids.
pub open spec fn msgs_wf(s: Seq<MessageView>) -> bool {
    &&& forall|i: int, j: int| 0 <= i < j < s.len() ==> s[i].timestamp >= s[j].timestamp
    &&& forall|i: int, j: int| 0 <= i < j < s.len() ==> s[i].id != s[j].id
}

/// The listing order of contacts: entries without a display name come
/// first; named entries order by the bytes of the name.
pub open spec fn contact_le(a: ContactView, b: ContactView) -> bool {
    match a.display_name {
        None => true,
        Some(x) => match b.display_name {
            None => false,
            Some(y) => bytes_le(encode_utf8(x), encode_utf8(y)),
        },
    }
}

/// The contact order is total.
pub proof fn lemma_contact_le_total(a: ContactView, b: ContactView)
    ensures
        contact_le(a, b) || contact_le(b, a),
{
    match (a.display_name, b.display_name) {
        (Some(x), Some(y)) => {
            lemma_bytes_le_total(encode_utf8(x), encode_utf8(y));
        },
        _ => {},
    }
}

/// The contact order is transitive.
pub proof fn lemma_contact_le_trans(a: ContactView, b: ContactView, c: ContactView)
    requires
        contact_le(a, b),
        contact_le(b, c),
    ensures
        contact_le(a, c),
{
    match (a.display_name, b.display_name, c.display_name) {
        (Some(x), Some(y), Some(z)) => {
            lemma_bytes_le_trans(encode_utf8(x), encode_utf8(y), encode_utf8(z));
        },
        _ => {},
    }
}

/// Contacts are keyed by ledger id and listed in display-name order.
pub open spec fn contacts_wf(s: Seq<ContactView>) -> bool {
    &&& forall|i: int, j: int| 0 <= i < j < s.len() ==> s[i].ledger_id != s[j].ledger_id
    &&& forall|i: int, j: int| 0 <= i < j < s.len() ==> contact_le(s[i], s[j])
}

/// True exactly when `a` lists at or before `b`.
fn contact_le_exec(a: &Contact, b: &Contact) -> (r: bool)
    ensures
        r == contact_le(a@, b@),
{
    match &a.display_name {
        None => true,
        Some(x) => match &b.display_name {
            None => false,
            Some(y) => crate::strutil::bytes_le_exec(x.as_str().as_bytes(), y.as_str().as_bytes()),
        },
    }
}

/// Settings rows have pairwise distinct keys.
pub open spec fn setting_rows_wf(s: Seq<(Seq<char>, Seq<char>)>) -> bool {
    forall|i: int, j: int| 0 <= i < j < s.len() ==> s[i].0 != s[j].0
}

/// The store.
pub struct Database {
    msgs: Vec<Message>,
    cts: Vec<Contact>,
    sets: Vec<Setting>,
}

impl Database {
    /// The stored messages, most recent first.
    pub closed spec fn messages(&self) -> Seq<MessageView> {
        self.msgs@.map_values(|m: Message| m@)
    }

    /// The stored contacts, in display-name order.
    pub closed spec fn contacts(&self) -> Seq<ContactView> {
        self.cts@.map_values(|c: Contact| c@)
    }

    /// The settings rows, in insertion order.
    pub closed spec fn setting_rows(&self) -> Seq<(Seq<char>, Seq<char>)> {
        self.sets@.map_values(|s: Setting| (s.key@, s.value@))
    }

    /// The settings as a map.
    pub open spec fn settings(&self) -> Map<Seq<char>, Seq<char>> {
        settings_map_of(self.setting_rows())
    }

    /// The well-formedness of the whole store.
    pub open spec fn wf(&self) -> bool {
        &&& msgs_wf(self.messages())
        &&& contacts_wf(self.contacts())
        &&& setting_rows_wf(self.setting_rows())
    }

    /// The contact filed under `id`, if any.
    pub open spec fn spec_get_contact(&self, id: Seq<char>) -> Option<ContactView> {
        if exists|i: int| 0 <= i < self.contacts().len() && self.contacts()[i].ledger_id == id {
            Some(
                self.contacts()[choose|i: int|
                    0 <= i < self.contacts().len() && self.contacts()[i].ledger_id == id],
            )
        } else {
            None
        }
    }

    /// Opens a fresh store with the default settings installed:
    /// `delivery_mode=auto`, `tor_enabled=false`, `dht_ttl_hours=72`.
    pub fn open() -> (r: Self)
        ensures
            r.wf(),
            r.messages() == Seq::<MessageView>::empty(),
            r.contacts() == Seq::<ContactView>::empty(),
            r.settings() == Map::<Seq<char>, Seq<char>>::empty().insert(
                "delivery_mode"@,
                "auto"@,
            ).insert("tor_enabled"@, "false"@).insert("dht_ttl_hours"@, "72"@),
    {
        let mut sets: Vec<Setting> = Vec::new();
        sets.push(Setting { key: String::from_str("delivery_mode"), value: String::from_str("auto") });
        sets.push(Setting { key: String::from_str("tor_enabled"), value: String::from_str("false") });
        sets.push(Setting { key: String::from_str("dht_ttl_hours"), value: String::from_str("72") });
        let r = Database { msgs: Vec::new(), cts: Vec::new(), sets };
        proof {
            reveal_strlit("delivery_mode");
            reveal_strlit("tor_enabled");
            reveal_strlit("dht_ttl_hours");
            reveal_strlit("auto");
            reveal_strlit("false");
            reveal_strlit("72");
            let rows = r.setting_rows();
            assert(rows.len() == 3);
            assert(rows[0] == ("delivery_mode"@, "auto"@));
            assert(rows[1] == ("tor_enabled"@, "false"@));
            assert(rows[2] == ("dht_ttl_hours"@, "72"@));
            let r0 = rows.take(0);
            let r1 = rows.take(1);
            let r2 = rows.take(2);
            assert(r1.drop_last() =~= r0);
            assert(r1.last() == rows[0]);
            assert(r2.drop_last() =~= r1);
            assert(r2.last() == rows[1]);
            assert(rows.drop_last() =~= r2);
            assert(rows.last() == rows[2]);
            assert(r0 =~= Seq::<(Seq<char>, Seq<char>)>::empty());
            assert(settings_map_of(r0) == Map::<Seq<char>, Seq<char>>::empty());
            assert(settings_map_of(r1) == settings_map_of(r0).insert("delivery_mode"@, "auto"@));
            assert(settings_map_of(r2) == settings_map_of(r1).insert("tor_enabled"@, "false"@));
            assert(settings_map_of(rows) == settings_map_of(r2).insert("dht_ttl_hours"@, "72"@));
            assert("delivery_mode"@ != "tor_enabled"@) by {
                assert("delivery_mode"@.len() != "tor_enabled"@.len());
            }
            assert("delivery_mode"@ != "dht_ttl_hours"@) by {
                assert("delivery_mode"@[0] == 'd' && "dht_ttl_hours"@[1] == 'h');
                assert("delivery_mode"@[1] == 'e');
            }
            assert("tor_enabled"@ != "dht_ttl_hours"@) by {
                assert("tor_enabled"@.len() != "dht_ttl_hours"@.len());
            }
            assert(r.messages() =~= Seq::<MessageView>::empty());
            assert(r.contacts() =~= Seq::<ContactView>::empty());
        }
        r
    }

    /// Inserts a message, replacing any stored message with the same id and
    /// keeping the most-recent-first order.
    pub fn insert_message(&mut self, msg: &Message)
        requires
            old(self).wf(),
        ensures
            final(self).wf(),
            final(self).contacts() == old(self).contacts(),
            final(self).setting_rows() == old(self).setting_rows(),
            final(self).messages().contains(msg@),
            forall|m: MessageView|
                old(self).messages().contains(m) && m.id != msg@.id ==> final(self).messages().contains(m),
            forall|m: MessageView|
                final(self).messages().contains(m) ==> m == msg@ || (old(self).messages().contains(m) && m.id != msg@.id),
    {
        let n = self.msgs.len();
        let mut out: Vec<Message> = Vec::new();
        let mut i: usize = 0;
        while i < n && self.msgs[i].timestamp > msg.timestamp
            invariant
                i <= n,
                n == self.msgs@.len(),
                forall|j: int| 0 <= j < i ==> self.messages()[j].timestamp > msg@.timestamp,
                out@.map_values(|m: Message| m@) == self.messages().take(i as int).filter(
                    not_msg_id(msg@.id)),
            decreases n - i,
        {
            let ghost pre = self.messages().take(i as int);
            if !str_eq(self.msgs[i].id.as_str(), msg.id.as_str()) {
                out.push(self.msgs[i].clone());
            }
            proof {
                reveal(Seq::filter);
                let pred = not_msg_id(msg@.id);
                let cur = self.messages()[i as int];
                assert(self.messages().take(i + 1 as int) =~= pre.push(cur));
                assert(pre.push(cur).drop_last() =~= pre);
                if pred(cur) {
                    assert(pre.push(cur).filter(pred) =~= pre.filter(pred).push(cur));
                } else {
                    assert(pre.push(cur).filter(pred) =~= pre.filter(pred));
                }
            }
            i = i + 1;
        }
        let ghost k = i as int;
        out.push(msg.clone());
        proof {
            reveal(Seq::filter);
            assert(self.messages().subrange(k, k) =~= Seq::<MessageView>::empty());
            assert(Seq::<MessageView>::empty().filter(not_msg_id(msg@.id))
                =~= Seq::<MessageView>::empty());
            assert(self.messages().take(k).filter(not_msg_id(msg@.id)).push(msg@)
                + Seq::<MessageView>::empty() =~= self.messages().take(k).filter(
                not_msg_id(msg@.id),
            ).push(msg@));
            assert(out@.map_values(|m: Message| m@) =~= self.messages().take(k).filter(
                not_msg_id(msg@.id),
            ).push(msg@));
        }
        while i < n
            invariant
                0 <= k <= i <= n,
                n == self.msgs@.len(),
                out@.map_values(|m: Message| m@) == self.messages().take(k).filter(
                    not_msg_id(msg@.id)).push(msg@) + self.messages().subrange(k, i as int).filter(
                    not_msg_id(msg@.id)),
            decreases n - i,
        {
            let ghost pre = self.messages().subrange(k, i as int);
            let ghost lead = self.messages().take(k).filter(not_msg_id(msg@.id)).push(msg@);
            let ghost outpre = out@;
            if !str_eq(self.msgs[i].id.as_str(), msg.id.as_str()) {
                out.push(self.msgs[i].clone());
            }
            proof {
                reveal(Seq::filter);
                let pred = not_msg_id(msg@.id);
                let cur = self.messages()[i as int];
                assert(self.messages().subrange(k, i + 1 as int) =~= pre.push(cur));
                assert(pre.push(cur).drop_last() =~= pre);
                if pred(cur) {
                    assert(pre.push(cur).filter(pred) =~= pre.filter(pred).push(cur));
                    assert(out@ == outpre.push(out@.last()));
                    assert(out@.last()@ == cur);
                    assert(out@.map_values(|m: Message| m@) =~= outpre.map_values(
                        |m: Message| m@,
                    ).push(cur));
                    assert(outpre.map_values(|m: Message| m@).push(cur) =~= lead + pre.filter(
                        pred,
                    ).push(cur));
                } else {
                    assert(pre.push(cur).filter(pred) =~= pre.filter(pred));
                    assert(out@ == outpre);
                }
                assert(out@.map_values(|m: Message| m@) =~= lead + self.messages().subrange(
                    k,
                    i + 1 as int,
                ).filter(pred));
            }
            i = i + 1;
        }
        let ghost oldm = self.messages();
        self.msgs = out;
        proof {
            let pred = not_msg_id(msg@.id);
            assert(oldm.subrange(k, n as int) =~= oldm.skip(k));
            lemma_insert_wf(oldm, msg@, k);
            assert(final(self).messages() == oldm.take(k).filter(pred).push(msg@) + oldm.skip(
                k,
            ).filter(pred));
        }
    }

    /// The messages in `folder`, or all messages, most recent first.
    pub fn get_messages(&self, folder: Option<&str>) -> (r: Vec<Message>)
        ensures
            (match folder {
                Some(f) => r@.map_values(|m: Message| m@) == self.messages().filter(folder_is(f@)),
                None => r@.map_values(|m: Message| m@) == self.messages(),
            }),
    {
        let mut out: Vec<Message> = Vec::new();
        let n = self.msgs.len();
        let mut i: usize = 0;
        while i < n
            invariant
                i <= n,
                n == self.msgs@.len(),
                (match folder {
                    Some(f) => out@.map_values(|m: Message| m@) == self.messages().take(
                        i as int,
                    ).filter(folder_is(f@)),
                    None => out@.map_values(|m: Message| m@) == self.messages().take(i as int),
                }),
            decreases n - i,
        {
            let ghost pre = self.messages().take(i as int);
            match folder {
                Some(f) => {
                    if str_eq(self.msgs[i].folder.to_str(), f) {
                        out.push(self.msgs[i].clone());
                    }
                },
                None => {
                    out.push(self.msgs[i].clone());
                },
            }
            proof {
                reveal(Seq::filter);
                let cur = self.messages()[i as int];
                assert(self.messages().take(i + 1 as int) =~= pre.push(cur));
                assert(pre.push(cur).drop_last() =~= pre);
                if let Some(f) = folder {
                    let pred = folder_is(f@);
                    if pred(cur) {
                        assert(pre.push(cur).filter(pred) =~= pre.filter(pred).push(cur));
                    } else {
                        assert(pre.push(cur).filter(pred) =~= pre.filter(pred));
                    }
                }
            }
            i = i + 1;
        }
        proof {
            assert(self.messages().take(n as int) =~= self.messages());
        }
        out
    }

    /// The message with the given id, if stored.
    pub fn get_message(&self, id: &str) -> (r: Option<Message>)
        ensures
            r is Some <==> exists|i: int|
                0 <= i < self.messages().len() && self.messages()[i].id == id@,
            r matches Some(m) ==> self.messages().contains(m@) && m@.id == id@,
    {
        let n = self.msgs.len();
        let mut i: usize = 0;
        while i < n
            invariant
                i <= n,
                n == self.msgs@.len(),
                forall|j: int| 0 <= j < i ==> self.messages()[j].id != id@,
            decreases n - i,
        {
            if str_eq(self.msgs[i].id.as_str(), id) {
                let m = self.msgs[i].clone();
                proof {
                    assert(self.messages().contains(m@)) by {
                        assert(self.messages()[i as int] == m@);
                    }
                }
                return Some(m);
            }
            i = i + 1;
        }
        None
    }

    /// Deletes the message with the given id; reports whether one was stored.
    pub fn delete_message(&mut self, id: &str) -> (r: bool)
        requires
            old(self).wf(),
        ensures
            final(self).wf(),
            final(self).contacts() == old(self).contacts(),
            final(self).setting_rows() == old(self).setting_rows(),
final(self).messages() == old(self).messages().filter(not_msg_id(id@)),
            r == exists|i: int|
                0 <= i < old(self).messages().len() && old(self).messages()[i].id == id@,
    {
        let mut kept: Vec<Message> = Vec::new();
        let mut found = false;
        let n = self.msgs.len();
        let mut i: usize = 0;
        while i < n
            invariant
                i <= n,
                n == self.msgs@.len(),
                kept@.map_values(|m: Message| m@) == self.messages().take(i as int).filter(not_msg_id(id@)),
                found == exists|j: int| 0 <= j < i && self.messages()[j].id == id@,
            decreases n - i,
        {
            let ghost pre = self.messages().take(i as int);
            let ghost pred = not_msg_id(id@);
            if str_eq(self.msgs[i].id.as_str(), id) {
                found = true;
            } else {
                kept.push(self.msgs[i].clone());
            }
            proof {
                reveal(Seq::filter);
                let cur = self.messages()[i as int];
                assert(self.messages().take(i + 1 as int) =~= pre.push(cur));
                assert(pre.push(cur).drop_last() =~= pre);
                if pred(cur) {
                    assert(pre.push(cur).filter(pred) =~= pre.filter(pred).push(cur));
                } else {
                    assert(pre.push(cur).filter(pred) =~= pre.filter(pred));
                }
            }
            i = i + 1;
        }
        proof {
            assert(self.messages().take(n as int) =~= self.messages());
        }
        let ghost oldm = self.messages();
        self.msgs = kept;
        proof {
            lemma_msgs_wf_filter(oldm, not_msg_id(id@));
        }
        found
    }

    /// Marks the message with the given id as read.
    pub fn mark_read(&mut self, id: &str)
        requires
            old(self).wf(),
        ensures
            final(self).wf(),
            final(self).contacts() == old(self).contacts(),
            final(self).setting_rows() == old(self).setting_rows(),
final(self).messages() == old(self).messages().map_values(mark_with(id@)),
    {
        let mut out: Vec<Message> = Vec::new();
        let n = self.msgs.len();
        let mut i: usize = 0;
        while i < n
            invariant
                i <= n,
                n == self.msgs@.len(),
                out@.map_values(|m: Message| m@) == self.messages().take(i as int).map_values(mark_with(id@)),
            decreases n - i,
        {
            let ghost pre = self.messages().take(i as int);
            let mut m = self.msgs[i].clone();
            if str_eq(m.id.as_str(), id) {
                m.is_read = true;
            }
            out.push(m);
            proof {
                reveal(Seq::filter);
                let cur = self.messages()[i as int];
                assert(self.messages().take(i + 1 as int) =~= pre.push(cur));
                assert(pre.push(cur).map_values(mark_with(id@)) =~= pre.map_values(
                    mark_with(id@),
                ).push(mark_read_view(cur, id@)));
            }
            i = i + 1;
        }
        proof {
            assert(self.messages().take(n as int) =~= self.messages());
        }
        let ghost oldm = self.messages();
        self.msgs = out;
        proof {
            let marked = oldm.map_values(mark_with(id@));
            assert forall|i2: int, j: int| 0 <= i2 < j < marked.len() implies marked[i2].timestamp
                >= marked[j].timestamp && marked[i2].id != marked[j].id by {
                assert(oldm[i2].timestamp >= oldm[j].timestamp && oldm[i2].id != oldm[j].id);
            }
        }
    }

    /// Inserts or replaces the contact filed under its ledger id, keeping
    /// the listing in display-name order.
    pub fn upsert_contact(&mut self, contact: &Contact)
        requires
            old(self).wf(),
        ensures
            final(self).wf(),
            final(self).messages() == old(self).messages(),
            final(self).setting_rows() == old(self).setting_rows(),
            final(self).contacts().contains(contact@),
            forall|c: ContactView|
                old(self).contacts().contains(c) && c.ledger_id != contact@.ledger_id ==> final(self).contacts().contains(c),
            forall|c: ContactView|
                final(self).contacts().contains(c) ==> c == contact@ || (old(self).contacts().contains(c) && c.ledger_id != contact@.ledger_id),
    {
        let n = self.cts.len();
        let mut kept: Vec<Contact> = Vec::new();
        let mut i: usize = 0;
        while i < n && !contact_le_exec(contact, &self.cts[i])
            invariant
                i <= n,
                n == self.cts@.len(),
                forall|j: int| 0 <= j < i ==> !contact_le(contact@, self.contacts()[j]),
                kept@.map_values(|c: Contact| c@) == self.contacts().take(i as int).filter(
                    not_contact_id(contact@.ledger_id),
                ),
            decreases n - i,
        {
            let ghost pre = self.contacts().take(i as int);
            if !str_eq(self.cts[i].ledger_id.as_str(), contact.ledger_id.as_str()) {
                kept.push(self.cts[i].clone());
            }
            proof {
                reveal(Seq::filter);
                let pred = not_contact_id(contact@.ledger_id);
                let cur = self.contacts()[i as int];
                assert(self.contacts().take(i + 1 as int) =~= pre.push(cur));
                assert(pre.push(cur).drop_last() =~= pre);
                if pred(cur) {
                    assert(pre.push(cur).filter(pred) =~= pre.filter(pred).push(cur));
                } else {
                    assert(pre.push(cur).filter(pred) =~= pre.filter(pred));
                }
            }
            i = i + 1;
        }
        let ghost k = i as int;
        kept.push(contact.clone());
        proof {
            reveal(Seq::filter);
            assert(self.contacts().subrange(k, k) =~= Seq::<ContactView>::empty());
            assert(Seq::<ContactView>::empty().filter(not_contact_id(contact@.ledger_id))
                =~= Seq::<ContactView>::empty());
            assert(self.contacts().take(k).filter(not_contact_id(contact@.ledger_id)).push(
                contact@,
            ) + Seq::<ContactView>::empty() =~= self.contacts().take(k).filter(
                not_contact_id(contact@.ledger_id),
            ).push(contact@));
            assert(kept@.map_values(|c: Contact| c@) =~= self.contacts().take(k).filter(
                not_contact_id(contact@.ledger_id),
            ).push(contact@));
        }
        while i < n
            invariant
                0 <= k <= i <= n,
                n == self.cts@.len(),
                kept@.map_values(|c: Contact| c@) == self.contacts().take(k).filter(
                    not_contact_id(contact@.ledger_id)).push(contact@)
                    + self.contacts().subrange(k, i as int).filter(
                    not_contact_id(contact@.ledger_id),
                ),
            decreases n - i,
        {
            let ghost pre = self.contacts().subrange(k, i as int);
            let ghost lead = self.contacts().take(k).filter(not_contact_id(contact@.ledger_id)).push(
                contact@,
            );
            let ghost keptpre = kept@;
            if !str_eq(self.cts[i].ledger_id.as_str(), contact.ledger_id.as_str()) {
                kept.push(self.cts[i].clone());
            }
            proof {
                reveal(Seq::filter);
                let pred = not_contact_id(contact@.ledger_id);
                let cur = self.contacts()[i as int];
                assert(self.contacts().subrange(k, i + 1 as int) =~= pre.push(cur));
                assert(pre.push(cur).drop_last() =~= pre);
                if pred(cur) {
                    assert(pre.push(cur).filter(pred) =~= pre.filter(pred).push(cur));
                    assert(kept@ == keptpre.push(kept@.last()));
                    assert(kept@.last()@ == cur);
                    assert(kept@.map_values(|c: Contact| c@) =~= keptpre.map_values(
                        |c: Contact| c@,
                    ).push(cur));
                    assert(keptpre.map_values(|c: Contact| c@).push(cur) =~= lead + pre.filter(
                        pred,
                    ).push(cur));
                } else {
                    assert(pre.push(cur).filter(pred) =~= pre.filter(pred));
                    assert(kept@ == keptpre);
                }
                assert(kept@.map_values(|c: Contact| c@) =~= lead + self.contacts().subrange(
                    k,
                    i + 1 as int,
                ).filter(pred));
            }
            i = i + 1;
        }
        let ghost oldc = self.contacts();
        self.cts = kept;
        proof {
            let pred = not_contact_id(contact@.ledger_id);
            assert(oldc.subrange(k, n as int) =~= oldc.skip(k));
            lemma_contact_insert_wf(oldc, contact@, k);
            assert(final(self).contacts() == oldc.take(k).filter(pred).push(contact@) + oldc.skip(
                k,
            ).filter(pred));
        }
    }

    /// The contact filed under `ledger_id`, if any.
    pub fn get_contact(&self, ledger_id: &str) -> (r: Option<Contact>)
        requires
            self.wf(),
        ensures
            (match r {
                Some(c) => self.spec_get_contact(ledger_id@) == Some(c@),
                None => self.spec_get_contact(ledger_id@) is None,
            }),
    {
        let n = self.cts.len();
        let mut i: usize = 0;
        while i < n
            invariant
                i <= n,
                n == self.cts@.len(),
                self.wf(),
                forall|j: int| 0 <= j < i ==> self.contacts()[j].ledger_id != ledger_id@,
            decreases n - i,
        {
            if str_eq(self.cts[i].ledger_id.as_str(), ledger_id) {
                let c = self.cts[i].clone();
                proof {
                    let k = choose|k: int|
                        0 <= k < self.contacts().len() && self.contacts()[k].ledger_id
                            == ledger_id@;
                    assert(self.contacts()[i as int].ledger_id == ledger_id@);
                    assert(k == i as int);
                }
                return Some(c);
            }
            i = i + 1;
        }
        None
    }

    /// All contacts, in display-name order.
    pub fn get_contacts(&self) -> (r: Vec<Contact>)
        ensures
            r@.map_values(|c: Contact| c@) == self.contacts(),
    {
        let mut out: Vec<Contact> = Vec::new();
        let n = self.cts.len();
        let mut i: usize = 0;
        while i < n
            invariant
                i <= n,
                n == self.cts@.len(),
                out@.map_values(|c: Contact| c@) == self.contacts().take(i as int),
            decreases n - i,
        {
            out.push(self.cts[i].clone());
            proof {
                assert(self.contacts().take(i + 1 as int) =~= self.contacts().take(i as int).push(
                    self.contacts()[i as int],
                ));
            }
            i = i + 1;
        }
        proof {
            assert(self.contacts().take(n as int) =~= self.contacts());
        }
        out
    }

    /// The value stored under `key`, if any.
    pub fn get_setting(&self, key: &str) -> (r: Option<String>)
        requires
            self.wf(),
        ensures
            r is Some <==> self.settings().contains_key(key@),
            r matches Some(v) ==> self.settings()[key@] == v@,
    {
        let n = self.sets.len();
        let mut i: usize = 0;
        while i < n
            invariant
                i <= n,
                n == self.sets@.len(),
                self.wf(),
                forall|j: int| 0 <= j < i ==> self.setting_rows()[j].0 != key@,
            decreases n - i,
        {
            if str_eq(self.sets[i].key.as_str(), key) {
                let v = self.sets[i].value.clone();
                proof {
                    lemma_settings_map_entry(self.setting_rows(), i as int);
                }
                return Some(v);
            }
            i = i + 1;
        }
        proof {
            lemma_settings_map_absent(self.setting_rows(), key@);
        }
        None
    }

    /// Stores `value` under `key`, replacing any previous value.
    pub fn set_setting(&mut self, key: &str, value: &str)
        requires
            old(self).wf(),
        ensures
            final(self).wf(),
            final(self).messages() == old(self).messages(),
            final(self).contacts() == old(self).contacts(),
            final(self).settings() == old(self).settings().insert(key@, value@),
    {
        let mut kept: Vec<Setting> = Vec::new();
        let n = self.sets.len();
        let mut i: usize = 0;
        while i < n
            invariant
                i <= n,
                n == self.sets@.len(),
                kept@.map_values(|s: Setting| (s.key@, s.value@)) == self.setting_rows().take(
                    i as int,
                ).filter(row_not_key(key@)),
            decreases n - i,
        {
            let ghost pre = self.setting_rows().take(i as int);
            let ghost pred = row_not_key(key@);
            if !str_eq(self.sets[i].key.as_str(), key) {
                kept.push(self.sets[i].clone());
            }
            proof {
                reveal(Seq::filter);
                let cur = self.setting_rows()[i as int];
                assert(self.setting_rows().take(i + 1 as int) =~= pre.push(cur));
                assert(pre.push(cur).drop_last() =~= pre);
                if pred(cur) {
                    assert(pre.push(cur).filter(pred) =~= pre.filter(pred).push(cur));
                } else {
                    assert(pre.push(cur).filter(pred) =~= pre.filter(pred));
                }
            }
            i = i + 1;
        }
        proof {
            assert(self.setting_rows().take(n as int) =~= self.setting_rows());
        }
        kept.push(Setting { key: String::from_str(key), value: String::from_str(value) });
        let ghost oldrows = self.setting_rows();
        self.sets = kept;
        proof {
            let pred = row_not_key(key@);
            assert(final(self).setting_rows() =~= oldrows.filter(pred).push((key@, value@)));
            oldrows.filter_lemma(pred);
            assert forall|i2: int, j: int|
                0 <= i2 < j < final(self).setting_rows().len() implies final(self).setting_rows()[i2].0 != final(self).setting_rows()[j].0 by {
                let rows = final(self).setting_rows();
                let flt = oldrows.filter(pred);
                if j < flt.len() {
                    lemma_filter_distinct_rows(oldrows, pred, i2, j);
                } else {
                    assert(rows[j] == (key@, value@));
                    assert(pred(flt[i2]));
                }
            }
            lemma_settings_map_filter_insert(oldrows, key@, value@);
        }
    }

    /// All settings rows, in stored order.
    pub fn get_all_settings(&self) -> (r: Vec<Setting>)
        ensures
            r@.map_values(|s: Setting| (s.key@, s.value@)) == self.setting_rows(),
    {
        let mut out: Vec<Setting> = Vec::new();
        let n = self.sets.len();
        let mut i: usize = 0;
        while i < n
            invariant
                i <= n,
                n == self.sets@.len(),
                out@.map_values(|s: Setting| (s.key@, s.value@)) == self.setting_rows().take(
                    i as int,
                ),
            decreases n - i,
        {
            out.push(self.sets[i].clone());
            proof {
                assert(self.setting_rows().take(i + 1 as int) =~= self.setting_rows().take(
                    i as int,
                ).push(self.setting_rows()[i as int]));
            }
            i = i + 1;
        }
        proof {
            assert(self.setting_rows().take(n as int) =~= self.setting_rows());
        }
        out
    }

    /// Applies a settings update: absent fields leave the stored values
    /// unchanged; the boolean and the hour count are stored as text.
    pub fn apply_settings(&mut self, s: &Settings)
        requires
            old(self).wf(),
        ensures
            final(self).wf(),
            final(self).messages() == old(self).messages(),
            final(self).contacts() == old(self).contacts(),
            final(self).settings() == apply_settings_map(
                old(self).settings(),
                (match s.delivery_mode {
                    Some(ref dm) => Some(dm@),
                    None => None,
                }),
                s.tor_enabled,
                s.dht_ttl_hours,
            ),
    {
        match &s.delivery_mode {
            Some(dm) => {
                self.set_setting("delivery_mode", dm.as_str());
            },
            None => {},
        }
        match s.tor_enabled {
            Some(b) => {
                if b {
                    self.set_setting("tor_enabled", "true");
                } else {
                    self.set_setting("tor_enabled", "false");
                }
            },
            None => {},
        }
        match s.dht_ttl_hours {
            Some(ttl) => {
                let mut digits: Vec<char> = Vec::new();
                push_u64_dec(&mut digits, ttl);
                let text = chars_to_string(&digits);
                proof {
                    assert(Seq::<char>::empty() + dec_nat(ttl as nat) =~= dec_nat(ttl as nat));
                }
                self.set_setting("dht_ttl_hours", text.as_str());
            },
            None => {},
        }
    }
}

/// A message with the matching id marked as read.
pub open spec fn mark_read_view(m: MessageView, id: Seq<char>) -> MessageView {
    if m.id == id {
        MessageView { is_read: true, ..m }
    } else {
        m
    }
}

/// The settings map after an update request.
pub open spec fn apply_settings_map(
    m: Map<Seq<char>, Seq<char>>,
    delivery_mode: Option<Seq<char>>,
    tor_enabled: Option<bool>,
    dht_ttl_hours: Option<u64>,
) -> Map<Seq<char>, Seq<char>> {
    let m1 = match delivery_mode {
        Some(dm) => m.insert("delivery_mode"@, dm),
        None => m,
    };
    let m2 = match tor_enabled {
        Some(b) => m1.insert("tor_enabled"@, if b {
            "true"@
        } else {
            "false"@
        }),
        None => m1,
    };
    match dht_ttl_hours {
        Some(ttl) => m2.insert("dht_ttl_hours"@, dec_nat(ttl as nat)),
        None => m2,
    }
}


/// Every element of a filtered sequence occurs in the sequence.
proof fn lemma_filter_subset<A>(s: Seq<A>, pred: spec_fn(A) -> bool, i: int)
    requires
        0 <= i < s.filter(pred).len(),
    ensures
        s.contains(s.filter(pred)[i]),
    decreases s.len(),
{
    reveal(Seq::filter);
    if s.len() == 0 {
    } else {
        let dl = s.drop_last();
        let flt = s.filter(pred);
        let fdl = dl.filter(pred);
        if pred(s.last()) {
            assert(flt == fdl.push(s.last()));
            if i < fdl.len() {
                lemma_filter_subset(dl, pred, i);
                let w = choose|w: int| 0 <= w < dl.len() && dl[w] == fdl[i];
                assert(s[w] == flt[i]);
            } else {
                assert(flt[i] == s[s.len() - 1]);
            }
        } else {
            assert(flt == fdl);
            lemma_filter_subset(dl, pred, i);
            let w = choose|w: int| 0 <= w < dl.len() && dl[w] == fdl[i];
            assert(s[w] == flt[i]);
        }
    }
    assert(exists|w: int| 0 <= w < s.len() && s[w] == s.filter(pred)[i]);
}

/// Inserting a message at the boundary of its timestamp keeps the store
/// well formed and replaces exactly the message with the same id.
proof fn lemma_insert_wf(oldm: Seq<MessageView>, msg: MessageView, k: int)
    requires
        msgs_wf(oldm),
        0 <= k <= oldm.len(),
        forall|j: int| 0 <= j < k ==> oldm[j].timestamp > msg.timestamp,
        k < oldm.len() ==> oldm[k].timestamp <= msg.timestamp,
    ensures
        ({
            let pred = not_msg_id(msg.id);
            let res = oldm.take(k).filter(pred).push(msg) + oldm.skip(k).filter(pred);
            &&& msgs_wf(res)
            &&& res.contains(msg)
            &&& (forall|m: MessageView| oldm.contains(m) && m.id != msg.id ==> res.contains(m))
            &&& (forall|m: MessageView|
                res.contains(m) ==> m == msg || (oldm.contains(m) && m.id != msg.id))
        }),
{
    reveal(Seq::filter);
    let pred = not_msg_id(msg.id);
    let a = oldm.take(k);
    let b = oldm.skip(k);
    let fa = a.filter(pred);
    let fb = b.filter(pred);
    let res = fa.push(msg) + fb;
    a.filter_lemma(pred);
    b.filter_lemma(pred);
    assert(msgs_wf(a)) by {
        assert(forall|i: int| 0 <= i < a.len() ==> a[i] == oldm[i]);
    }
    assert(msgs_wf(b)) by {
        assert(forall|i: int| 0 <= i < b.len() ==> b[i] == oldm[k + i]);
    }
    lemma_msgs_wf_filter(a, pred);
    lemma_msgs_wf_filter(b, pred);
    // every element of fa is above msg's timestamp; every element of fb at or below
    assert forall|i: int| 0 <= i < fa.len() implies fa[i].timestamp > msg.timestamp && fa[i].id
        != msg.id by {
        lemma_filter_subset(a, pred, i);
        let w = choose|w: int| 0 <= w < a.len() && a[w] == fa[i];
        assert(oldm[w] == fa[i]);
        assert(pred(fa[i]));
    }
    assert forall|i: int| 0 <= i < fb.len() implies fb[i].timestamp <= msg.timestamp && fb[i].id
        != msg.id by {
        lemma_filter_subset(b, pred, i);
        let w = choose|w: int| 0 <= w < b.len() && b[w] == fb[i];
        assert(oldm[k + w] == fb[i]);
        assert(oldm[k].timestamp <= msg.timestamp);
        assert(oldm[k].timestamp >= oldm[k + w].timestamp);
    }
    // ids distinct across the two filtered parts
    assert forall|i: int, j: int| 0 <= i < fa.len() && 0 <= j < fb.len() implies fa[i].id
        != fb[j].id by {
        lemma_filter_subset(a, pred, i);
        lemma_filter_subset(b, pred, j);
        let wi = choose|w: int| 0 <= w < a.len() && a[w] == fa[i];
        let wj = choose|w: int| 0 <= w < b.len() && b[w] == fb[j];
        assert(oldm[wi] == fa[i] && oldm[k + wj] == fb[j]);
        assert(oldm[wi].id != oldm[k + wj].id);
    }
    assert(msgs_wf(res)) by {
        assert forall|i: int, j: int| 0 <= i < j < res.len() implies res[i].timestamp
            >= res[j].timestamp && res[i].id != res[j].id by {
            if j < fa.len() {
            } else if j == fa.len() {
                assert(res[j] == msg);
            } else {
                if i < fa.len() {
                } else if i == fa.len() {
                    assert(res[i] == msg);
                } else {
                }
            }
        }
    }
    assert(res[fa.len() as int] == msg);
    assert(res.contains(msg));
    assert forall|m: MessageView| oldm.contains(m) && m.id != msg.id implies res.contains(m) by {
        let w = choose|w: int| 0 <= w < oldm.len() && oldm[w] == m;
        if w < k {
            assert(a[w] == m);
            assert(a.contains(m));
            assert(fa.contains(m));
            let w2 = choose|w2: int| 0 <= w2 < fa.len() && fa[w2] == m;
            assert(res[w2] == m);
        } else {
            assert(b[w - k] == m);
            assert(b.contains(m));
            assert(fb.contains(m));
            let w2 = choose|w2: int| 0 <= w2 < fb.len() && fb[w2] == m;
            assert(res[fa.len() + 1 + w2] == m);
        }
        assert(res.contains(m));
    }
    assert forall|m: MessageView|
        res.contains(m) implies m == msg || (oldm.contains(m) && m.id != msg.id) by {
        let w = choose|w: int| 0 <= w < res.len() && res[w] == m;
        if w < fa.len() {
            assert(fa[w] == m);
            lemma_filter_subset(a, pred, w);
            let w2 = choose|w2: int| 0 <= w2 < a.len() && a[w2] == m;
            assert(oldm[w2] == m);
            assert(oldm.contains(m));
        } else if w == fa.len() {
            assert(m == msg);
        } else {
            assert(fb[w - fa.len() - 1] == m);
            lemma_filter_subset(b, pred, w - fa.len() - 1);
            let w2 = choose|w2: int| 0 <= w2 < b.len() && b[w2] == m;
            assert(oldm[k + w2] == m);
            assert(oldm.contains(m));
        }
    }
}

/// Filtering preserves the message order and id uniqueness.
pub proof fn lemma_msgs_wf_filter(s: Seq<MessageView>, pred: spec_fn(MessageView) -> bool)
    requires
        msgs_wf(s),
    ensures
        msgs_wf(s.filter(pred)),
    decreases s.len(),
{
    reveal(Seq::filter);
    s.filter_lemma(pred);
    if s.len() == 0 {
    } else {
        let dl = s.drop_last();
        assert(msgs_wf(dl));
        lemma_msgs_wf_filter(dl, pred);
        dl.filter_lemma(pred);
        let flt = s.filter(pred);
        let fdl = dl.filter(pred);
        if pred(s.last()) {
            assert(flt =~= fdl.push(s.last()));
            assert forall|i: int, j: int|
                0 <= i < j < flt.len() implies flt[i].timestamp >= flt[j].timestamp && flt[i].id
                != flt[j].id by {
                if j < fdl.len() {
                } else {
                    assert(flt[j] == s.last());
                    lemma_filter_subset(dl, pred, i);
                    let k = choose|k: int| 0 <= k < dl.len() && dl[k] == fdl[i];
                    assert(s[k] == fdl[i]);
                    assert(s[k].timestamp >= s.last().timestamp && s[k].id != s.last().id) by {
                        assert(s.last() == s[s.len() - 1]);
                    }
                }
            }
        } else {
            assert(flt =~= fdl);
        }
    }
}

/// Filtering preserves the contact order and key uniqueness.
proof fn lemma_contacts_wf_filter(s: Seq<ContactView>, pred: spec_fn(ContactView) -> bool)
    requires
        contacts_wf(s),
    ensures
        contacts_wf(s.filter(pred)),
    decreases s.len(),
{
    reveal(Seq::filter);
    s.filter_lemma(pred);
    if s.len() == 0 {
        assert(s.filter(pred) == s);
    } else {
        let dl = s.drop_last();
        assert(contacts_wf(dl));
        lemma_contacts_wf_filter(dl, pred);
        dl.filter_lemma(pred);
        let flt = s.filter(pred);
        let fdl = dl.filter(pred);
        if pred(s.last()) {
            assert(flt =~= fdl.push(s.last()));
            assert forall|i: int, j: int|
                #![trigger flt[i], flt[j]]
                0 <= i < j < flt.len() implies contact_le(flt[i], flt[j]) && flt[i].ledger_id
                != flt[j].ledger_id by {
                if j < fdl.len() {
                    assert(flt[i] == fdl[i] && flt[j] == fdl[j]);
                    assert(contact_le(fdl[i], fdl[j]) && fdl[i].ledger_id != fdl[j].ledger_id);
                } else {
                    assert(flt[j] == s.last());
                    lemma_filter_subset(dl, pred, i);
                    let w = choose|w: int| 0 <= w < dl.len() && dl[w] == fdl[i];
                    assert(s[w] == fdl[i]);
                    assert(contact_le(s[w], s[s.len() - 1]) && s[w].ledger_id != s[s.len()
                        - 1].ledger_id);
                }
            }
        } else {
            assert(flt =~= fdl);
        }
    }
}

/// Inserting a contact at the boundary of its display-name position keeps
/// the store well formed and replaces exactly the entry with the same id.
proof fn lemma_contact_insert_wf(oldc: Seq<ContactView>, c: ContactView, k: int)
    requires
        contacts_wf(oldc),
        0 <= k <= oldc.len(),
        forall|j: int| 0 <= j < k ==> !contact_le(c, oldc[j]),
        k < oldc.len() ==> contact_le(c, oldc[k]),
    ensures
        ({
            let pred = not_contact_id(c.ledger_id);
            let res = oldc.take(k).filter(pred).push(c) + oldc.skip(k).filter(pred);
            &&& contacts_wf(res)
            &&& res.contains(c)
            &&& (forall|x: ContactView|
                oldc.contains(x) && x.ledger_id != c.ledger_id ==> res.contains(x))
            &&& (forall|x: ContactView|
                res.contains(x) ==> x == c || (oldc.contains(x) && x.ledger_id != c.ledger_id))
        }),
{
    reveal(Seq::filter);
    let pred = not_contact_id(c.ledger_id);
    let a = oldc.take(k);
    let b = oldc.skip(k);
    let fa = a.filter(pred);
    let fb = b.filter(pred);
    let res = fa.push(c) + fb;
    a.filter_lemma(pred);
    b.filter_lemma(pred);
    assert(contacts_wf(a)) by {
        assert(forall|i: int| 0 <= i < a.len() ==> a[i] == oldc[i]);
    }
    assert(contacts_wf(b)) by {
        assert(forall|i: int| 0 <= i < b.len() ==> b[i] == oldc[k + i]);
    }
    lemma_contacts_wf_filter(a, pred);
    lemma_contacts_wf_filter(b, pred);
    assert forall|i: int| 0 <= i < fa.len() implies contact_le(fa[i], c) && fa[i].ledger_id
        != c.ledger_id by {
        lemma_filter_subset(a, pred, i);
        let w = choose|w: int| 0 <= w < a.len() && a[w] == fa[i];
        assert(oldc[w] == fa[i]);
        assert(!contact_le(c, oldc[w]));
        lemma_contact_le_total(c, oldc[w]);
        assert(pred(fa[i]));
    }
    assert forall|i: int| 0 <= i < fb.len() implies contact_le(c, fb[i]) && fb[i].ledger_id
        != c.ledger_id by {
        lemma_filter_subset(b, pred, i);
        let w = choose|w: int| 0 <= w < b.len() && b[w] == fb[i];
        assert(oldc[k + w] == fb[i]);
        assert(contact_le(c, oldc[k]));
        if w == 0 {
            assert(fb[i] == oldc[k]);
        } else {
            assert(contact_le(oldc[k], oldc[k + w]));
            lemma_contact_le_trans(c, oldc[k], oldc[k + w]);
        }
    }
    assert forall|i: int, j: int| 0 <= i < fa.len() && 0 <= j < fb.len() implies fa[i].ledger_id
        != fb[j].ledger_id && contact_le(fa[i], fb[j]) by {
        lemma_filter_subset(a, pred, i);
        lemma_filter_subset(b, pred, j);
        let wi = choose|w: int| 0 <= w < a.len() && a[w] == fa[i];
        let wj = choose|w: int| 0 <= w < b.len() && b[w] == fb[j];
        assert(oldc[wi] == fa[i] && oldc[k + wj] == fb[j]);
        assert(oldc[wi].ledger_id != oldc[k + wj].ledger_id);
        assert(contact_le(oldc[wi], oldc[k + wj]));
    }
    assert(contacts_wf(res)) by {
        assert forall|i: int, j: int|
            #![trigger res[i], res[j]]
            0 <= i < j < res.len() implies contact_le(res[i], res[j]) && res[i].ledger_id
            != res[j].ledger_id by {
            if j < fa.len() {
                assert(res[i] == fa[i] && res[j] == fa[j]);
            } else if j == fa.len() {
                assert(res[j] == c);
                assert(res[i] == fa[i]);
            } else {
                assert(res[j] == fb[j - fa.len() - 1]);
                if i < fa.len() {
                    assert(res[i] == fa[i]);
                    lemma_contact_le_trans(fa[i], c, fb[j - fa.len() - 1]);
                } else if i == fa.len() {
                    assert(res[i] == c);
                } else {
                    assert(res[i] == fb[i - fa.len() - 1]);
                }
            }
        }
    }
    assert(res[fa.len() as int] == c);
    assert(res.contains(c));
    assert forall|x: ContactView|
        oldc.contains(x) && x.ledger_id != c.ledger_id implies res.contains(x) by {
        let w = choose|w: int| 0 <= w < oldc.len() && oldc[w] == x;
        if w < k {
            assert(a[w] == x);
            assert(a.contains(x));
            assert(fa.contains(x));
            let w2 = choose|w2: int| 0 <= w2 < fa.len() && fa[w2] == x;
            assert(res[w2] == x);
        } else {
            assert(b[w - k] == x);
            assert(b.contains(x));
            assert(fb.contains(x));
            let w2 = choose|w2: int| 0 <= w2 < fb.len() && fb[w2] == x;
            assert(res[fa.len() + 1 + w2] == x);
        }
        assert(res.contains(x));
    }
    assert forall|x: ContactView|
        res.contains(x) implies x == c || (oldc.contains(x) && x.ledger_id != c.ledger_id) by {
        let w = choose|w: int| 0 <= w < res.len() && res[w] == x;
        if w < fa.len() {
            assert(fa[w] == x);
            lemma_filter_subset(a, pred, w);
            let w2 = choose|w2: int| 0 <= w2 < a.len() && a[w2] == x;
            assert(oldc[w2] == x);
            assert(oldc.contains(x));
        } else if w == fa.len() {
            assert(x == c);
        } else {
            assert(fb[w - fa.len() - 1] == x);
            lemma_filter_subset(b, pred, w - fa.len() - 1);
            let w2 = choose|w2: int| 0 <= w2 < b.len() && b[w2] == x;
            assert(oldc[k + w2] == x);
            assert(oldc.contains(x));
        }
    }
}

proof fn lemma_filter_distinct_rows(
    s: Seq<(Seq<char>, Seq<char>)>,
    pred: spec_fn((Seq<char>, Seq<char>)) -> bool,
    i: int,
    j: int,
)
    requires
        setting_rows_wf(s),
        0 <= i < j < s.filter(pred).len(),
    ensures
        s.filter(pred)[i].0 != s.filter(pred)[j].0,
    decreases s.len(),
{
    reveal(Seq::filter);
    s.filter_lemma(pred);
    let flt = s.filter(pred);
    if s.len() == 0 {
    } else {
        let dl = s.drop_last();
        assert(setting_rows_wf(dl));
        dl.filter_lemma(pred);
        let fdl = dl.filter(pred);
        if pred(s.last()) {
            assert(flt == fdl.push(s.last()));
            if j < fdl.len() {
                lemma_filter_distinct_rows(dl, pred, i, j);
                assert(flt[i] == fdl[i] && flt[j] == fdl[j]);
            } else {
                assert(flt[j] == s.last());
                lemma_filter_subset(dl, pred, i);
                let k = choose|k: int| 0 <= k < dl.len() && dl[k] == fdl[i];
                assert(s[k] == fdl[i]);
                assert(s[k].0 != s[s.len() - 1].0);
            }
        } else {
            assert(flt == fdl);
            lemma_filter_distinct_rows(dl, pred, i, j);
            assert(flt[i] == fdl[i] && flt[j] == fdl[j]);
        }
    }
}

/// The row with index `i` supplies the map entry for its key.
proof fn lemma_settings_map_entry(s: Seq<(Seq<char>, Seq<char>)>, i: int)
    requires
        setting_rows_wf(s),
        0 <= i < s.len(),
    ensures
        settings_map_of(s).contains_key(s[i].0),
        settings_map_of(s)[s[i].0] == s[i].1,
    decreases s.len(),
{
    if i == s.len() - 1 {
        assert(s.last() == s[i]);
    } else {
        let dl = s.drop_last();
        assert(setting_rows_wf(dl));
        assert(dl[i] == s[i]);
        lemma_settings_map_entry(dl, i);
        assert(s[i].0 != s.last().0);
    }
}

/// A key on no row is not in the map.
proof fn lemma_settings_map_absent(s: Seq<(Seq<char>, Seq<char>)>, key: Seq<char>)
    requires
        forall|j: int| 0 <= j < s.len() ==> s[j].0 != key,
    ensures
        !settings_map_of(s).contains_key(key),
    decreases s.len(),
{
    if s.len() > 0 {
        let dl = s.drop_last();
        assert(forall|j: int| 0 <= j < dl.len() ==> dl[j] == s[j] && s[j].0 != key);
        lemma_settings_map_absent(dl, key);
    }
}

/// Replacing a key's rows by one fresh row at the end updates the map.
proof fn lemma_settings_map_filter_insert(
    s: Seq<(Seq<char>, Seq<char>)>,
    key: Seq<char>,
    value: Seq<char>,
)
    requires
        setting_rows_wf(s),
    ensures
        settings_map_of(s.filter(row_not_key(key)).push((key, value))) == settings_map_of(
            s,
        ).insert(key, value),
    decreases s.len(),
{
    reveal(Seq::filter);
    let pred = row_not_key(key);
    let flt = s.filter(pred);
    assert(flt.push((key, value)).drop_last() =~= flt);
    assert(flt.push((key, value)).last() == (key, value));
    assert(settings_map_of(flt.push((key, value))) == settings_map_of(flt).insert(key, value));
    assert(settings_map_of(flt) =~= settings_map_of(s).remove(key)) by {
        lemma_settings_map_filter_remove(s, key);
    }
    assert(settings_map_of(s).remove(key).insert(key, value) =~= settings_map_of(s).insert(
        key,
        value,
    ));
}

/// Filtering a key out of the rows removes it from the map.
proof fn lemma_settings_map_filter_remove(s: Seq<(Seq<char>, Seq<char>)>, key: Seq<char>)
    requires
        setting_rows_wf(s),
    ensures
        settings_map_of(s.filter(row_not_key(key))) == settings_map_of(s).remove(key),
    decreases s.len(),
{
    reveal(Seq::filter);
    let pred = row_not_key(key);
    if s.len() == 0 {
        assert(s.filter(pred) =~= s);
        assert(settings_map_of(s) =~= Map::<Seq<char>, Seq<char>>::empty());
        assert(settings_map_of(s).remove(key) =~= settings_map_of(s));
    } else {
        let dl = s.drop_last();
        assert(setting_rows_wf(dl));
        lemma_settings_map_filter_remove(dl, key);
        if pred(s.last()) {
            assert(s.filter(pred) == dl.filter(pred).push(s.last()));
            assert(s.filter(pred).drop_last() =~= dl.filter(pred));
            assert(settings_map_of(s.filter(pred)) == settings_map_of(dl.filter(pred)).insert(
                s.last().0,
                s.last().1,
            ));
            assert(settings_map_of(dl).remove(key).insert(s.last().0, s.last().1)
                =~= settings_map_of(dl).insert(s.last().0, s.last().1).remove(key));
        } else {
            assert(s.filter(pred) == dl.filter(pred));
            assert(s.last().0 == key);
            assert(settings_map_of(dl).remove(key) =~= settings_map_of(dl).insert(
                key,
                s.last().1,
            ).remove(key));
        }
    }
}

} // verus!
