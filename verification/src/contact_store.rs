//! The contact list: one record to a node, and the form in which it is kept on disk.
//!
//! The stored form has a version of its own and types of its own, so that the record in memory
//! can change without changing the file. Trust, alias and a pending warning are stored as they
//! are: a restart neither grants trust nor dismisses a warning. A file of another version is not
//! read at all; the caller moves it aside and starts with no contacts.

use vstd::prelude::*;
use vstd::string::*;

use crate::bytes;
use crate::direct_crypto::ENCRYPTION_VERSION;
use crate::identity::{NodeId, X25519Public};
use crate::session;
use crate::session::{
    ContactData, ContactRecord, PublicIdentity, PublicIdentityData, VerificationState,
};
use crate::table;

verus! {

/// The version of the stored form.
pub const SCHEMA_VERSION: u32 = 1;

// ---------------------------------------------------------------------------------------------
// The stored form
// ---------------------------------------------------------------------------------------------

/// Whether a stored contact was verified.
#[derive(Clone, Copy, Debug, PartialEq, Eq, Structural)]
pub enum PersistedVerificationState {
    Unverified,
    Verified,
}

impl PersistedVerificationState {
    /// The stored form of a verification state.
    pub open spec fn stored(state: VerificationState) -> PersistedVerificationState {
        match state {
            VerificationState::Unverified => PersistedVerificationState::Unverified,
            VerificationState::Verified => PersistedVerificationState::Verified,
        }
    }

    /// The verification state that was stored.
    pub open spec fn restored(self) -> VerificationState {
        match self {
            PersistedVerificationState::Unverified => VerificationState::Unverified,
            PersistedVerificationState::Verified => VerificationState::Verified,
        }
    }

    /// The stored form of a verification state.
    pub fn from_state(state: VerificationState) -> (stored: PersistedVerificationState)
        ensures
            stored == PersistedVerificationState::stored(state),
    {
        match state {
            VerificationState::Unverified => PersistedVerificationState::Unverified,
            VerificationState::Verified => PersistedVerificationState::Verified,
        }
    }

    /// The verification state that was stored.
    pub fn into_state(self) -> (state: VerificationState)
        ensures
            state == self.restored(),
    {
        match self {
            PersistedVerificationState::Unverified => VerificationState::Unverified,
            PersistedVerificationState::Verified => VerificationState::Verified,
        }
    }
}

/// A stored public identity. Its binding is not checked when it is read back: whatever
/// establishes a session checks it.
#[derive(Debug)]
pub struct PersistedPublicIdentity {
    pub node_id: NodeId,
    pub x25519_public: X25519Public,
    pub x25519_signature: Vec<u8>,
}

impl View for PersistedPublicIdentity {
    type V = PublicIdentityData;

    open spec fn view(&self) -> PublicIdentityData {
        PublicIdentityData {
            node_id: self.node_id@,
            x25519_public: self.x25519_public@,
            x25519_signature: self.x25519_signature@,
        }
    }
}

impl PersistedPublicIdentity {
    /// The stored form of a public identity.
    pub fn from_public_identity(identity: &PublicIdentity) -> (stored: PersistedPublicIdentity)
        ensures
            stored@ == identity@,
    {
        PersistedPublicIdentity {
            node_id: identity.node_id,
            x25519_public: identity.x25519_public,
            x25519_signature: bytes::to_vec(identity.x25519_signature.as_slice()),
        }
    }

    /// The public identity that was stored.
    pub fn into_public_identity(self) -> (identity: PublicIdentity)
        ensures
            identity@ == self@,
    {
        PublicIdentity {
            node_id: self.node_id,
            x25519_public: self.x25519_public,
            x25519_signature: self.x25519_signature,
        }
    }
}

/// A stored contact.
#[derive(Debug)]
pub struct PersistedContactV1 {
    pub public_identity: PersistedPublicIdentity,
    pub advertised_name: Option<String>,
    pub local_alias: Option<String>,
    pub verification: PersistedVerificationState,
    pub first_seen_ms: u64,
    pub last_seen_ms: u64,
    pub identity_change_pending: bool,
    /// The version of the key agreement when the contact was stored.
    pub session_protocol_version: u8,
    /// The version of the encryption when the contact was stored.
    pub encryption_version: u8,
}

/// What a stored contact says.
pub struct PersistedContactData {
    pub public_identity: PublicIdentityData,
    pub advertised_name: Option<Seq<char>>,
    pub local_alias: Option<Seq<char>>,
    pub verification: PersistedVerificationState,
    pub first_seen_ms: u64,
    pub last_seen_ms: u64,
    pub identity_change_pending: bool,
    pub session_protocol_version: u8,
    pub encryption_version: u8,
}

impl View for PersistedContactV1 {
    type V = PersistedContactData;

    open spec fn view(&self) -> PersistedContactData {
        PersistedContactData {
            public_identity: self.public_identity@,
            advertised_name: session::text_of(self.advertised_name),
            local_alias: session::text_of(self.local_alias),
            verification: self.verification,
            first_seen_ms: self.first_seen_ms,
            last_seen_ms: self.last_seen_ms,
            identity_change_pending: self.identity_change_pending,
            session_protocol_version: self.session_protocol_version,
            encryption_version: self.encryption_version,
        }
    }
}

impl PersistedContactData {
    /// The stored form of a contact.
    pub open spec fn stored(contact: ContactData) -> PersistedContactData {
        PersistedContactData {
            public_identity: contact.public_identity,
            advertised_name: contact.advertised_name,
            local_alias: contact.local_alias,
            verification: PersistedVerificationState::stored(contact.verification),
            first_seen_ms: contact.first_seen_ms,
            last_seen_ms: contact.last_seen_ms,
            identity_change_pending: contact.identity_change_pending,
            session_protocol_version: session::SESSION_PROTOCOL_VERSION,
            encryption_version: ENCRYPTION_VERSION,
        }
    }

    /// The contact that was stored.
    pub open spec fn restored(self) -> ContactData {
        ContactData {
            public_identity: self.public_identity,
            advertised_name: self.advertised_name,
            local_alias: self.local_alias,
            verification: self.verification.restored(),
            first_seen_ms: self.first_seen_ms,
            last_seen_ms: self.last_seen_ms,
            identity_change_pending: self.identity_change_pending,
        }
    }
}

impl PersistedContactV1 {
    /// The stored form of a contact.
    pub fn from_contact_record(record: &ContactRecord) -> (stored: PersistedContactV1)
        ensures
            stored@ == PersistedContactData::stored(record@),
    {
        PersistedContactV1 {
            public_identity: PersistedPublicIdentity::from_public_identity(&record.public_identity),
            advertised_name: session::clone_text(&record.advertised_name),
            local_alias: session::clone_text(&record.local_alias),
            verification: PersistedVerificationState::from_state(record.verification),
            first_seen_ms: record.first_seen_ms,
            last_seen_ms: record.last_seen_ms,
            identity_change_pending: record.identity_change_pending,
            session_protocol_version: session::session_protocol_version(),
            encryption_version: ENCRYPTION_VERSION,
        }
    }

    /// The contact that was stored.
    pub fn into_contact_record(self) -> (record: ContactRecord)
        ensures
            record@ == self@.restored(),
    {
        ContactRecord {
            public_identity: self.public_identity.into_public_identity(),
            advertised_name: self.advertised_name,
            local_alias: self.local_alias,
            verification: self.verification.into_state(),
            first_seen_ms: self.first_seen_ms,
            last_seen_ms: self.last_seen_ms,
            identity_change_pending: self.identity_change_pending,
        }
    }
}

/// What is in the contact file.
#[derive(Debug)]
pub struct PersistedStoreV1 {
    pub schema_version: u32,
    pub contacts: Vec<PersistedContactV1>,
}

// ---------------------------------------------------------------------------------------------
// The list
// ---------------------------------------------------------------------------------------------

/// The nodes of contacts.
pub open spec fn nodes(contacts: Seq<ContactData>) -> Seq<Seq<u8>> {
    contacts.map_values(|contact: ContactData| contact.public_identity.node_id)
}

/// No node has two records.
pub open spec fn one_record_each(contacts: Seq<ContactData>) -> bool {
    nodes(contacts).no_duplicates()
}

/// The record of a node; `None` for a node that is not a contact.
pub open spec fn record_of(contacts: Seq<ContactData>, node_id: Seq<u8>) -> Option<ContactData> {
    match nodes(contacts).index_of_first(node_id) {
        Some(i) => Some(contacts[i]),
        None => None,
    }
}

/// The contacts with a record in place of the one its node had, or behind all others.
pub open spec fn with_record(contacts: Seq<ContactData>, record: ContactData) -> Seq<ContactData> {
    match nodes(contacts).index_of_first(record.public_identity.node_id) {
        Some(i) => contacts.update(i, record),
        None => contacts.push(record),
    }
}

/// The contacts made of records one after the other: of a node with several, the last counts.
pub open spec fn collected(records: Seq<ContactData>) -> Seq<ContactData>
    decreases records.len(),
{
    if records.len() == 0 {
        records
    } else {
        with_record(collected(records.drop_last()), records.last())
    }
}

/// The stored form of contacts.
pub open spec fn stored(contacts: Seq<ContactData>) -> Seq<PersistedContactData> {
    contacts.map_values(|contact: ContactData| PersistedContactData::stored(contact))
}

/// The contacts that were stored; `None` where the version is not known.
pub open spec fn restored(schema_version: u32, records: Seq<PersistedContactData>) -> Option<Seq<ContactData>> {
    if schema_version == SCHEMA_VERSION {
        Some(collected(records.map_values(|record: PersistedContactData| record.restored())))
    } else {
        None
    }
}

/// A list of contacts.
pub struct ContactStore {
    records: Vec<ContactRecord>,
}

impl View for ContactStore {
    type V = Seq<ContactData>;

    closed spec fn view(&self) -> Seq<ContactData> {
        table::views(self.records@)
    }
}

impl ContactStore {
    /// No node has two records.
    pub open spec fn wf(self) -> bool {
        one_record_each(self@)
    }

    /// No contacts.
    pub fn new() -> (store: ContactStore)
        ensures
            store.wf(),
            store@ == Seq::<ContactData>::empty(),
    {
        let store = ContactStore { records: Vec::new() };
        assert(store@ =~= Seq::<ContactData>::empty());
        store
    }

    /// The position of a node's record.
    fn position_of(&self, node_id: &NodeId) -> (position: Option<usize>)
        ensures
            match position {
                Some(i) => nodes(self@).index_of_first(node_id@) == Some(i as int) && i
                    < self.records@.len(),
                None => nodes(self@).index_of_first(node_id@) is None,
            },
    {
        let ghost all = nodes(self@);
        proof {
            all.index_of_first_ensures(node_id@);
        }
        let mut i: usize = 0;
        while i < self.records.len()
            invariant
                i <= self.records@.len(),
                all == nodes(self@),
                all.len() == self.records@.len(),
                forall|j: int| 0 <= j < i ==> #[trigger] all[j] != node_id@,
            decreases self.records@.len() - i,
        {
            assert(all[i as int] == self.records@[i as int]@.public_identity.node_id);
            if bytes::same(self.records[i].public_identity.node_id.as_slice(), node_id.as_slice()) {
                assert(all.contains(node_id@));
                proof {
                    all.index_of_first_ensures(node_id@);
                }
                return Some(i);
            }
            i += 1;
        }
        None
    }

    /// The record of a node.
    pub fn get(&self, node_id: &NodeId) -> (record: Option<&ContactRecord>)
        ensures
            record is Some <==> record_of(self@, node_id@) is Some,
            record matches Some(r) ==> record_of(self@, node_id@) == Some(r@),
    {
        match self.position_of(node_id) {
            Some(i) => Some(&self.records[i]),
            None => None,
        }
    }

    /// Puts a record in place of the one its node has, or behind all others.
    pub fn insert(&mut self, record: ContactRecord)
        ensures
            final(self)@ == with_record(old(self)@, record@),
            old(self).wf() ==> final(self).wf(),
    {
        proof {
            lemma_with_record(self@, record@);
        }
        let node_id = record.public_identity.node_id;
        match self.position_of(&node_id) {
            Some(i) => {
                self.records.set(i, record);
            },
            None => {
                self.records.push(record);
            },
        }
        assert(self@ =~= with_record(old(self)@, record@));
    }

    /// Removes all contacts.
    pub fn clear(&mut self)
        ensures
            final(self)@ == Seq::<ContactData>::empty(),
            final(self).wf(),
    {
        self.records = Vec::new();
        assert(self@ =~= Seq::<ContactData>::empty());
    }

    /// How many contacts there are.
    pub fn len(&self) -> (len: usize)
        ensures
            len == self@.len(),
    {
        self.records.len()
    }

    /// Whether there are none.
    pub fn is_empty(&self) -> (empty: bool)
        ensures
            empty == (self@.len() == 0),
    {
        self.records.len() == 0
    }

    /// All contacts, in the order in which they were first met.
    pub fn all(&self) -> (records: &Vec<ContactRecord>)
        ensures
            table::views(records@) == self@,
    {
        &self.records
    }

    /// The contents of the contact file.
    pub fn to_persisted(&self) -> (file: PersistedStoreV1)
        ensures
            file.schema_version == SCHEMA_VERSION,
            table::views(file.contacts@) == stored(self@),
    {
        let mut contacts: Vec<PersistedContactV1> = Vec::new();
        let mut i: usize = 0;
        while i < self.records.len()
            invariant
                i <= self.records@.len(),
                contacts@.len() == i,
                forall|j: int|
                    0 <= j < i ==> (#[trigger] contacts@[j])@ == PersistedContactData::stored(
                        self.records@[j]@,
                    ),
            decreases self.records@.len() - i,
        {
            contacts.push(PersistedContactV1::from_contact_record(&self.records[i]));
            i += 1;
        }
        assert(table::views(contacts@) =~= stored(self@));
        PersistedStoreV1 { schema_version: SCHEMA_VERSION, contacts }
    }

    /// The contacts in a contact file; `None` where its version is not known.
    pub fn from_persisted(file: PersistedStoreV1) -> (store: Option<ContactStore>)
        ensures
            store is Some <==> file.schema_version == SCHEMA_VERSION,
            store matches Some(s) ==> s.wf() && Some(s@) == restored(
                file.schema_version,
                table::views(file.contacts@),
            ),
    {
        if file.schema_version != SCHEMA_VERSION {
            return None;
        }
        let ghost all = table::views(file.contacts@).map_values(
            |record: PersistedContactData| record.restored(),
        );
        let mut rest: Vec<PersistedContactV1> = file.contacts;
        let ghost given = rest@;
        let mut store = ContactStore::new();
        let mut records: Vec<PersistedContactV1> = Vec::new();
        while rest.len() > 0
            invariant
                rest@.len() <= given.len(),
                records@.len() + rest@.len() == given.len(),
                rest@ == given.take(rest@.len() as int),
                forall|j: int|
                    0 <= j < records@.len() ==> (#[trigger] records@[j]) == given[given.len() - 1
                        - j],
            decreases rest@.len(),
        {
            if let Some(record) = rest.pop() {
                records.push(record);
                assert(rest@ =~= given.take(rest@.len() as int));
            }
        }
        assert(all.take(0) =~= Seq::<ContactData>::empty());
        while records.len() > 0
            invariant
                store.wf(),
                all.len() == given.len(),
                records@.len() <= given.len(),
                forall|j: int| 0 <= j < given.len() ==> (#[trigger] given[j])@.restored() == all[j],
                forall|j: int|
                    0 <= j < records@.len() ==> (#[trigger] records@[j]) == given[given.len() - 1
                        - j],
                store@ == collected(all.take(given.len() - records@.len())),
            decreases records@.len(),
        {
            let ghost done = given.len() - records@.len();
            if let Some(record) = records.pop() {
                assert(record == given[done as int]);
                store.insert(record.into_contact_record());
                assert(all.take(done + 1).drop_last() =~= all.take(done as int));
                assert(all.take(done + 1).last() == all[done as int]);
            }
        }
        assert(all.take(given.len() as int) =~= all);
        Some(store)
    }
}

// ---------------------------------------------------------------------------------------------
// Laws
// ---------------------------------------------------------------------------------------------

proof fn lemma_with_record(contacts: Seq<ContactData>, record: ContactData)
    ensures
        one_record_each(contacts) ==> one_record_each(with_record(contacts, record)),
{
    let node = record.public_identity.node_id;
    let all = nodes(contacts);
    all.index_of_first_ensures(node);
    let after = with_record(contacts, record);
    match all.index_of_first(node) {
        Some(i) => {
            assert(nodes(after) =~= all);
        },
        None => {
            assert(nodes(after) =~= all.push(node));
        },
    }
}

/// A record that was put in is the record of its node; other nodes keep theirs.
pub proof fn law_inserted_record_is_found(contacts: Seq<ContactData>, record: ContactData, other: Seq<u8>)
    ensures
        record_of(with_record(contacts, record), record.public_identity.node_id) == Some(record),
        other != record.public_identity.node_id ==> record_of(with_record(contacts, record), other)
            == record_of(contacts, other),
{
    let node = record.public_identity.node_id;
    let before = nodes(contacts);
    let after = nodes(with_record(contacts, record));
    before.index_of_first_ensures(node);
    after.index_of_first_ensures(node);
    before.index_of_first_ensures(other);
    after.index_of_first_ensures(other);
    match before.index_of_first(node) {
        Some(i) => {
            assert(after =~= before);
        },
        None => {
            assert(after =~= before.push(node));
            assert(after[before.len() as int] == node);
            assert forall|k: int| 0 <= k < before.len() implies before[k] != node by {
                assert(before.contains(before[k]));
            }
            if before.contains(other) {
                let k = before.index_of_first(other)->0;
                assert(after[k] == other);
            }
            if other != node && after.contains(other) {
                let k = after.index_of_first(other)->0;
                assert(before[k] == other);
            }
        },
    }
}

proof fn lemma_collected_distinct(records: Seq<ContactData>)
    requires
        one_record_each(records),
    ensures
        collected(records) == records,
    decreases records.len(),
{
    if records.len() > 0 {
        let head = records.drop_last();
        assert(nodes(head) =~= nodes(records).drop_last());
        lemma_collected_distinct(head);
        let node = records.last().public_identity.node_id;
        nodes(head).index_of_first_ensures(node);
        if nodes(head).contains(node) {
            let k = nodes(head).index_of_first(node)->0;
            assert(nodes(records)[k] == nodes(records)[records.len() - 1]);
        }
        assert(head.push(records.last()) =~= records);
    }
}

/// What was stored is what is read back: the same contacts, in the same order, with their
/// aliases, their verification and their pending warnings.
pub proof fn law_contacts_survive_a_restart(contacts: Seq<ContactData>)
    requires
        one_record_each(contacts),
    ensures
        restored(SCHEMA_VERSION, stored(contacts)) == Some(contacts),
{
    let back = stored(contacts).map_values(|record: PersistedContactData| record.restored());
    assert forall|i: int| 0 <= i < contacts.len() implies #[trigger] back[i] == contacts[i] by {
        assert(stored(contacts)[i] == PersistedContactData::stored(contacts[i]));
    }
    assert(back =~= contacts);
    lemma_collected_distinct(contacts);
}

/// The record of a node is the one with its id, and there is none where no record has it.
pub proof fn law_record_is_that_of_the_node(contacts: Seq<ContactData>, node_id: Seq<u8>)
    ensures
        record_of(contacts, node_id) is None <==> (forall|i: int|
            0 <= i < contacts.len() ==> (#[trigger] contacts[i]).public_identity.node_id != node_id),
        forall|i: int|
            0 <= i < contacts.len() && (#[trigger] contacts[i]).public_identity.node_id == node_id
                && (forall|k: int|
                0 <= k < i ==> (#[trigger] contacts[k]).public_identity.node_id != node_id)
                ==> record_of(contacts, node_id) == Some(contacts[i]),
{
    let all = nodes(contacts);
    all.index_of_first_ensures(node_id);
    if all.index_of_first(node_id) is None {
        assert forall|i: int|
            0 <= i < contacts.len() implies (#[trigger] contacts[i]).public_identity.node_id
            != node_id by {
            assert(all[i] == contacts[i].public_identity.node_id);
        }
    } else {
        let at = all.index_of_first(node_id)->0;
        assert(contacts[at].public_identity.node_id == node_id);
        assert forall|i: int|
            0 <= i < contacts.len() && (#[trigger] contacts[i]).public_identity.node_id == node_id
                && (forall|k: int|
                0 <= k < i ==> (#[trigger] contacts[k]).public_identity.node_id
                    != node_id) implies record_of(contacts, node_id) == Some(contacts[i]) by {
            if at < i {
                assert(contacts[at].public_identity.node_id != node_id);
            }
            if i < at {
                assert(all[i] == contacts[i].public_identity.node_id);
            }
        }
    }
}

/// Putting a record in changes the record of its node, in its place, or adds one behind all
/// others; every other record stays where and as it is.
pub proof fn law_other_records_stay(contacts: Seq<ContactData>, record: ContactData) -> (at: int)
    ensures
        0 <= at < with_record(contacts, record).len(),
        with_record(contacts, record)[at] == record,
        forall|i: int|
            0 <= i < contacts.len() && i != at ==> with_record(contacts, record)[i]
                == #[trigger] contacts[i],
        at < contacts.len() ==> contacts[at].public_identity.node_id
            == record.public_identity.node_id,
        with_record(contacts, record).len() == if at < contacts.len() {
            contacts.len()
        } else {
            contacts.len() + 1
        },
        at == contacts.len() <==> (forall|i: int|
            0 <= i < contacts.len() ==> (#[trigger] contacts[i]).public_identity.node_id
                != record.public_identity.node_id),
{
    let node = record.public_identity.node_id;
    let all = nodes(contacts);
    all.index_of_first_ensures(node);
    match all.index_of_first(node) {
        Some(i) => {
            assert(all[i] == contacts[i].public_identity.node_id);
            i
        },
        None => {
            assert forall|i: int|
                0 <= i < contacts.len() implies (#[trigger] contacts[i]).public_identity.node_id
                != node by {
                assert(all[i] == contacts[i].public_identity.node_id);
            }
            contacts.len() as int
        },
    }
}

/// Of records of one node the last counts, and a file of another version is not read.
pub proof fn law_last_record_counts(records: Seq<ContactData>, node_id: Seq<u8>, schema_version: u32)
    ensures
        forall|i: int|
            0 <= i < records.len() && (#[trigger] records[i]).public_identity.node_id == node_id && (
            forall|k: int|
                i < k < records.len() ==> (#[trigger] records[k]).public_identity.node_id
                    != node_id) ==> record_of(collected(records), node_id) == Some(records[i]),
        (forall|i: int|
            0 <= i < records.len() ==> (#[trigger] records[i]).public_identity.node_id != node_id)
            ==> record_of(collected(records), node_id) is None,
        schema_version != 1 ==> restored(schema_version, stored(records)) is None,
    decreases records.len(),
{
    if records.len() > 0 {
        let head = records.drop_last();
        let last = records.last();
        law_last_record_counts(head, node_id, schema_version);
        law_inserted_record_is_found(collected(head), last, node_id);
        assert forall|i: int|
            0 <= i < records.len() && (#[trigger] records[i]).public_identity.node_id == node_id && (
            forall|k: int|
                i < k < records.len() ==> (#[trigger] records[k]).public_identity.node_id
                    != node_id) implies record_of(collected(records), node_id) == Some(
            records[i],
        ) by {
            if i < head.len() {
                assert(records[records.len() - 1].public_identity.node_id != node_id);
                assert(head[i] == records[i]);
                assert forall|k: int|
                    i < k < head.len() implies (#[trigger] head[k]).public_identity.node_id
                    != node_id by {
                    assert(records[k].public_identity.node_id != node_id);
                }
            }
        }
        if forall|i: int|
            0 <= i < records.len() ==> (#[trigger] records[i]).public_identity.node_id != node_id {
            assert(records[records.len() - 1].public_identity.node_id != node_id);
            assert forall|i: int|
                0 <= i < head.len() implies (#[trigger] head[i]).public_identity.node_id
                != node_id by {
                assert(records[i].public_identity.node_id != node_id);
            }
        }
    } else {
        nodes(records).index_of_first_ensures(node_id);
    }
}

} // verus!
