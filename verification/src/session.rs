//! Contacts, and the session keys two identities agree on.
//!
//! A session is static: both X25519 keys follow from long-term seeds, so two nodes derive the
//! same keys every time. Authentication comes from the binding signature; there is no forward
//! secrecy and no recovery after a seed is lost.
//!
//! The keys are derived with BLAKE3 in three separate domains: one root from the shared secret
//! and everything that identifies the two parties, then one key per direction. Which direction a
//! key serves is fixed by the order of the two node ids, so both ends agree without negotiation.

use vstd::prelude::*;
use vstd::string::*;

use crate::bytes;
use crate::identity;
use crate::identity::{Identity, NodeId, X25519Public};
use crate::message::PROTOCOL_VERSION;
use crate::primitives;

verus! {

/// Version of the key agreement, mixed into every root key.
pub const SESSION_PROTOCOL_VERSION: u8 = 1;

/// Domain of the root key.
pub const SESSION_ROOT_CONTEXT: &'static str = "meshtalk 2026 session-root v1";

/// Domain of the key from the lower node id to the higher.
pub const SESSION_SEND_CONTEXT: &'static str = "meshtalk 2026 session-send v1";

/// Domain of the key from the higher node id to the lower.
pub const SESSION_RECV_CONTEXT: &'static str = "meshtalk 2026 session-recv v1";

/// The version of the key agreement this node speaks.
pub fn session_protocol_version() -> (version: u8)
    ensures
        version == SESSION_PROTOCOL_VERSION,
{
    SESSION_PROTOCOL_VERSION
}

/// Whether the local user has checked that a contact is who it claims to be. Never sent over
/// the network.
#[derive(Clone, Copy, Debug, PartialEq, Eq, Structural)]
pub enum VerificationState {
    Unverified,
    Verified,
}

// ---------------------------------------------------------------------------------------------
// Public identities
// ---------------------------------------------------------------------------------------------

/// What a node tells others about itself.
#[derive(Debug)]
pub struct PublicIdentity {
    pub node_id: NodeId,
    pub x25519_public: X25519Public,
    /// Ed25519 signature that binds the X25519 key to the node id; 64 bytes where well formed.
    pub x25519_signature: Vec<u8>,
}

/// What a public identity says.
pub struct PublicIdentityData {
    pub node_id: Seq<u8>,
    pub x25519_public: Seq<u8>,
    pub x25519_signature: Seq<u8>,
}

impl PublicIdentityData {
    /// The binding signature is well formed and made by the node it names.
    pub open spec fn bound(self) -> bool {
        self.x25519_signature.len() == 64 && primitives::ed25519_accepts(
            self.node_id,
            identity::binding_bytes(self.node_id, self.x25519_public),
            self.x25519_signature,
        )
    }
}

/// The public identity of the owner of a seed.
pub open spec fn public_identity_of(seed: Seq<u8>) -> PublicIdentityData {
    PublicIdentityData {
        node_id: primitives::ed25519_public(seed),
        x25519_public: identity::x25519_public_of(seed),
        x25519_signature: primitives::ed25519_signature(
            seed,
            identity::binding_bytes(
                primitives::ed25519_public(seed),
                identity::x25519_public_of(seed),
            ),
        ),
    }
}

impl View for PublicIdentity {
    type V = PublicIdentityData;

    open spec fn view(&self) -> PublicIdentityData {
        PublicIdentityData {
            node_id: self.node_id@,
            x25519_public: self.x25519_public@,
            x25519_signature: self.x25519_signature@,
        }
    }
}

impl Clone for PublicIdentity {
    fn clone(&self) -> (copy: Self)
        ensures
            copy@ == self@,
            copy.node_id == self.node_id,
    {
        PublicIdentity {
            node_id: self.node_id,
            x25519_public: self.x25519_public,
            x25519_signature: bytes::to_vec(self.x25519_signature.as_slice()),
        }
    }
}

impl PublicIdentity {
    /// The public half of an identity. Its binding holds.
    pub fn new(identity: &Identity) -> (public: PublicIdentity)
        ensures
            public@ == public_identity_of(identity@),
            public@.bound(),
            identity::x25519_secret_of(identity@).len() == 32,
    {
        let signature = identity.sign_x25519_public();
        PublicIdentity {
            node_id: identity.node_id(),
            x25519_public: identity.x25519_public(),
            x25519_signature: bytes::to_vec(signature.as_slice()),
        }
    }

    /// Whether the X25519 key is signed by the node it is claimed for.
    pub fn verify_binding(&self) -> (bound: bool)
        ensures
            bound == self@.bound(),
    {
        let signature: [u8; 64] = match bytes::to_array(self.x25519_signature.as_slice()) {
            Some(signature) => signature,
            None => {
                return false;
            },
        };
        let payload = identity::x25519_binding_payload(&self.node_id, &self.x25519_public);
        identity::verify(&self.node_id, payload.as_slice(), &signature)
    }

    /// Turns a public identity into a verified one, or hands it back where the binding does not
    /// hold.
    pub fn verify(self) -> (result: Result<VerifiedPublicIdentity, PublicIdentity>)
        ensures
            result is Ok <==> self@.bound(),
            result matches Ok(verified) ==> verified@ == self@,
            result matches Err(refused) ==> refused == self,
    {
        if self.verify_binding() {
            Ok(VerifiedPublicIdentity { identity: self })
        } else {
            Err(self)
        }
    }
}

/// A public identity whose binding has been checked. There is no other way to get one.
pub struct VerifiedPublicIdentity {
    identity: PublicIdentity,
}

impl View for VerifiedPublicIdentity {
    type V = PublicIdentityData;

    closed spec fn view(&self) -> PublicIdentityData {
        self.identity@
    }
}

impl VerifiedPublicIdentity {
    #[verifier::type_invariant]
    spec fn well_formed(self) -> bool {
        self.identity@.bound()
    }

    /// The node.
    pub fn node_id(&self) -> (id: NodeId)
        ensures
            id@ == self@.node_id,
    {
        self.identity.node_id
    }

    /// Its X25519 key.
    pub fn x25519_public(&self) -> (public: X25519Public)
        ensures
            public@ == self@.x25519_public,
    {
        self.identity.x25519_public
    }

    /// The public identity. Its binding holds.
    pub fn public_identity(&self) -> (public: &PublicIdentity)
        ensures
            public@ == self@,
            public@.bound(),
    {
        proof {
            use_type_invariant(self);
        }
        &self.identity
    }
}

// ---------------------------------------------------------------------------------------------
// Contacts
// ---------------------------------------------------------------------------------------------

/// What is known locally of another node. Trust, alias and the pending warning are set by local
/// action only; identity, advertised name and last-seen time come from the network.
#[derive(Debug)]
pub struct ContactRecord {
    pub public_identity: PublicIdentity,
    /// The name the contact gives itself. Never grounds for trust.
    pub advertised_name: Option<String>,
    /// The name the local user gave the contact.
    pub local_alias: Option<String>,
    pub verification: VerificationState,
    pub first_seen_ms: u64,
    pub last_seen_ms: u64,
    /// A change of the contact's key has not been acknowledged by the local user yet.
    pub identity_change_pending: bool,
}

/// What a contact record says.
pub struct ContactData {
    pub public_identity: PublicIdentityData,
    pub advertised_name: Option<Seq<char>>,
    pub local_alias: Option<Seq<char>>,
    pub verification: VerificationState,
    pub first_seen_ms: u64,
    pub last_seen_ms: u64,
    pub identity_change_pending: bool,
}

/// The characters of an optional text.
pub open spec fn text_of(text: Option<String>) -> Option<Seq<char>> {
    match text {
        Some(t) => Some(t@),
        None => None,
    }
}

impl View for ContactRecord {
    type V = ContactData;

    open spec fn view(&self) -> ContactData {
        ContactData {
            public_identity: self.public_identity@,
            advertised_name: text_of(self.advertised_name),
            local_alias: text_of(self.local_alias),
            verification: self.verification,
            first_seen_ms: self.first_seen_ms,
            last_seen_ms: self.last_seen_ms,
            identity_change_pending: self.identity_change_pending,
        }
    }
}

impl ContactData {
    /// A contact met for the first time at `now_ms`: nothing about it is trusted.
    pub open spec fn first_met(
        public_identity: PublicIdentityData,
        advertised_name: Option<Seq<char>>,
        now_ms: u64,
    ) -> ContactData {
        ContactData {
            public_identity,
            advertised_name,
            local_alias: None,
            verification: VerificationState::Unverified,
            first_seen_ms: now_ms,
            last_seen_ms: now_ms,
            identity_change_pending: false,
        }
    }

    /// The contact after the local user has verified it.
    pub open spec fn verified(self) -> ContactData {
        ContactData {
            verification: VerificationState::Verified,
            identity_change_pending: false,
            ..self
        }
    }

    /// The contact after it has been seen at `now_ms`.
    pub open spec fn seen_at(self, now_ms: u64) -> ContactData {
        ContactData { last_seen_ms: now_ms, ..self }
    }

    /// The contact after its key has changed: no trust is left and a warning is pending.
    pub open spec fn with_change_pending(self) -> ContactData {
        ContactData {
            verification: VerificationState::Unverified,
            identity_change_pending: true,
            ..self
        }
    }

    /// The contact after the local user has dismissed the warning.
    pub open spec fn with_change_acknowledged(self) -> ContactData {
        ContactData { identity_change_pending: false, ..self }
    }

    /// The name to show: the local alias, else the advertised name, else the short id.
    pub open spec fn shown_name(self) -> Seq<char> {
        match self.local_alias {
            Some(alias) => alias,
            None => match self.advertised_name {
                Some(name) => name,
                None => identity::short_id_text(self.public_identity.node_id),
            },
        }
    }
}

/// Copies an optional text.
pub fn clone_text(text: &Option<String>) -> (copy: Option<String>)
    ensures
        text_of(copy) == text_of(*text),
{
    match text {
        Some(t) => Some(t.clone()),
        None => None,
    }
}

impl Clone for ContactRecord {
    fn clone(&self) -> (copy: Self)
        ensures
            copy@ == self@,
            copy.public_identity.node_id == self.public_identity.node_id,
    {
        ContactRecord {
            public_identity: self.public_identity.clone(),
            advertised_name: clone_text(&self.advertised_name),
            local_alias: clone_text(&self.local_alias),
            verification: self.verification,
            first_seen_ms: self.first_seen_ms,
            last_seen_ms: self.last_seen_ms,
            identity_change_pending: self.identity_change_pending,
        }
    }
}

impl ContactRecord {
    /// A contact met for the first time.
    pub fn new(public_identity: PublicIdentity, advertised_name: Option<String>, now_ms: u64) -> (record: ContactRecord)
        ensures
            record@ == ContactData::first_met(public_identity@, text_of(advertised_name), now_ms),
            record.public_identity == public_identity,
    {
        ContactRecord {
            public_identity,
            advertised_name,
            local_alias: None,
            verification: VerificationState::Unverified,
            first_seen_ms: now_ms,
            last_seen_ms: now_ms,
            identity_change_pending: false,
        }
    }

    /// Records that the local user has verified this contact.
    pub fn mark_verified(&mut self)
        ensures
            final(self)@ == old(self)@.verified(),
            final(self).public_identity == old(self).public_identity,
    {
        self.verification = VerificationState::Verified;
        self.identity_change_pending = false;
    }

    /// Records that this contact has been seen.
    pub fn touch_last_seen(&mut self, now_ms: u64)
        ensures
            final(self)@ == old(self)@.seen_at(now_ms),
            final(self).public_identity == old(self).public_identity,
    {
        self.last_seen_ms = now_ms;
    }

    /// Withdraws trust because the contact's key has changed, and raises the warning.
    pub fn mark_identity_change_pending(&mut self)
        ensures
            final(self)@ == old(self)@.with_change_pending(),
            final(self).public_identity == old(self).public_identity,
    {
        self.verification = VerificationState::Unverified;
        self.identity_change_pending = true;
    }

    /// Drops the warning. Trust is not restored by that.
    pub fn acknowledge_identity_change(&mut self)
        ensures
            final(self)@ == old(self)@.with_change_acknowledged(),
            final(self).public_identity == old(self).public_identity,
    {
        self.identity_change_pending = false;
    }

    /// The name to show for this contact.
    pub fn display_name(&self) -> (name: String)
        ensures
            name@ == self@.shown_name(),
    {
        if let Some(alias) = &self.local_alias {
            return alias.clone();
        }
        if let Some(name) = &self.advertised_name {
            return name.clone();
        }
        identity::short_id(&self.public_identity.node_id)
    }
}

/// A change of key always costs a contact its verified state, and dismissing the warning does
/// not bring it back: only a new verification does.
pub proof fn law_key_change_withdraws_trust(contact: ContactData)
    ensures
        contact.with_change_pending().verification == VerificationState::Unverified,
        contact.with_change_pending().identity_change_pending,
        contact.with_change_pending().with_change_acknowledged().verification
            == VerificationState::Unverified,
        contact.with_change_pending().verified().verification == VerificationState::Verified,
        !contact.with_change_pending().verified().identity_change_pending,
{
}

// ---------------------------------------------------------------------------------------------
// Session keys
// ---------------------------------------------------------------------------------------------

/// What the root key is derived from: versions, shared secret, then both node ids and both keys,
/// those of the lower node id first.
pub open spec fn root_material(
    shared: Seq<u8>,
    node_a: Seq<u8>,
    node_b: Seq<u8>,
    x25519_a: Seq<u8>,
    x25519_b: Seq<u8>,
) -> Seq<u8> {
    let head = seq![PROTOCOL_VERSION, SESSION_PROTOCOL_VERSION] + shared;
    if bytes::not_after(node_a, node_b) {
        head + node_a + node_b + x25519_a + x25519_b
    } else {
        head + node_b + node_a + x25519_b + x25519_a
    }
}

/// The two keys of a session.
pub struct SessionKeys {
    /// From the lower node id to the higher.
    pub low_to_high: Seq<u8>,
    /// From the higher node id to the lower.
    pub high_to_low: Seq<u8>,
}

/// The keys derived from a shared secret and the two parties.
pub open spec fn session_keys(
    shared: Seq<u8>,
    node_a: Seq<u8>,
    node_b: Seq<u8>,
    x25519_a: Seq<u8>,
    x25519_b: Seq<u8>,
) -> SessionKeys {
    let root = primitives::blake3_derived(
        SESSION_ROOT_CONTEXT@,
        root_material(shared, node_a, node_b, x25519_a, x25519_b),
    );
    SessionKeys {
        low_to_high: primitives::blake3_derived(SESSION_SEND_CONTEXT@, root),
        high_to_low: primitives::blake3_derived(SESSION_RECV_CONTEXT@, root),
    }
}

impl SessionKeys {
    /// The key `i_am` encrypts with towards `other`.
    pub open spec fn sending(self, i_am: Seq<u8>, other: Seq<u8>) -> Seq<u8> {
        if bytes::not_after(i_am, other) {
            self.low_to_high
        } else {
            self.high_to_low
        }
    }

    /// The key `i_am` decrypts with from `other`.
    pub open spec fn receiving(self, i_am: Seq<u8>, other: Seq<u8>) -> Seq<u8> {
        if bytes::not_after(i_am, other) {
            self.high_to_low
        } else {
            self.low_to_high
        }
    }
}

/// The keys of a session, one per direction.
#[derive(Clone, Copy, PartialEq, Eq)]
pub struct SessionKeyPair {
    key_low_to_high: [u8; 32],
    key_high_to_low: [u8; 32],
}

impl View for SessionKeyPair {
    type V = SessionKeys;

    closed spec fn view(&self) -> SessionKeys {
        SessionKeys { low_to_high: self.key_low_to_high@, high_to_low: self.key_high_to_low@ }
    }
}

impl SessionKeyPair {
    /// Derives the keys. The order in which the two parties are given does not matter.
    pub fn derive(
        shared_secret: &[u8; 32],
        node_a: &NodeId,
        node_b: &NodeId,
        x25519_a: &X25519Public,
        x25519_b: &X25519Public,
    ) -> (keys: SessionKeyPair)
        ensures
            keys@ == session_keys(shared_secret@, node_a@, node_b@, x25519_a@, x25519_b@),
    {
        let a_first = bytes::is_not_after(node_a, node_b);
        let (first_node, first_x25519, second_node, second_x25519) = if a_first {
            (node_a, x25519_a, node_b, x25519_b)
        } else {
            (node_b, x25519_b, node_a, x25519_a)
        };
        let mut material: Vec<u8> = Vec::new();
        material.push(PROTOCOL_VERSION);
        material.push(SESSION_PROTOCOL_VERSION);
        bytes::append(&mut material, shared_secret.as_slice());
        bytes::append(&mut material, first_node.as_slice());
        bytes::append(&mut material, second_node.as_slice());
        bytes::append(&mut material, first_x25519.as_slice());
        bytes::append(&mut material, second_x25519.as_slice());
        assert(material@ =~= root_material(
            shared_secret@,
            node_a@,
            node_b@,
            x25519_a@,
            x25519_b@,
        ));
        let root = primitives::blake3_derive_key(SESSION_ROOT_CONTEXT, material.as_slice());
        SessionKeyPair {
            key_low_to_high: primitives::blake3_derive_key(SESSION_SEND_CONTEXT, root.as_slice()),
            key_high_to_low: primitives::blake3_derive_key(SESSION_RECV_CONTEXT, root.as_slice()),
        }
    }

    /// The key `i_am` encrypts with towards `other`.
    pub fn send_key(&self, i_am: &NodeId, other: &NodeId) -> (key: [u8; 32])
        ensures
            key@ == self@.sending(i_am@, other@),
    {
        if bytes::is_not_after(i_am, other) {
            self.key_low_to_high
        } else {
            self.key_high_to_low
        }
    }

    /// The key `i_am` decrypts with from `other`.
    pub fn recv_key(&self, i_am: &NodeId, other: &NodeId) -> (key: [u8; 32])
        ensures
            key@ == self@.receiving(i_am@, other@),
    {
        if bytes::is_not_after(i_am, other) {
            self.key_high_to_low
        } else {
            self.key_low_to_high
        }
    }
}

/// The keys do not depend on which party is named first.
pub proof fn law_session_keys_are_symmetric(
    shared: Seq<u8>,
    node_a: Seq<u8>,
    node_b: Seq<u8>,
    x25519_a: Seq<u8>,
    x25519_b: Seq<u8>,
)
    requires
        node_a.len() == node_b.len(),
        node_a != node_b || x25519_a == x25519_b,
    ensures
        session_keys(shared, node_a, node_b, x25519_a, x25519_b) == session_keys(
            shared,
            node_b,
            node_a,
            x25519_b,
            x25519_a,
        ),
{
    bytes::lemma_order(node_a, node_b);
}

/// What one party sends with, the other receives with, in both directions.
pub proof fn law_directions_mirror(keys: SessionKeys, node_a: Seq<u8>, node_b: Seq<u8>)
    requires
        node_a.len() == node_b.len(),
        node_a != node_b,
    ensures
        keys.sending(node_a, node_b) == keys.receiving(node_b, node_a),
        keys.receiving(node_a, node_b) == keys.sending(node_b, node_a),
{
    bytes::lemma_order(node_a, node_b);
}

/// The two directions of a session have keys of their own, derived from one root in two different
/// domains. They differ wherever the derivation tells the two domains apart.
pub proof fn law_directions_have_keys_of_their_own(
    shared: Seq<u8>,
    node_a: Seq<u8>,
    node_b: Seq<u8>,
    x25519_a: Seq<u8>,
    x25519_b: Seq<u8>,
)
    ensures
        ({
            let root = primitives::blake3_derived(
                SESSION_ROOT_CONTEXT@,
                root_material(shared, node_a, node_b, x25519_a, x25519_b),
            );
            let keys = session_keys(shared, node_a, node_b, x25519_a, x25519_b);
            let one = primitives::blake3_derived(SESSION_SEND_CONTEXT@, root);
            let other = primitives::blake3_derived(SESSION_RECV_CONTEXT@, root);
            &&& {
                ||| keys.sending(node_a, node_b) == one && keys.receiving(node_a, node_b) == other
                ||| keys.sending(node_a, node_b) == other && keys.receiving(node_a, node_b) == one
            }
            &&& keys.sending(node_a, node_b) != keys.receiving(node_a, node_b) <==> one != other
        }),
        SESSION_SEND_CONTEXT@ != SESSION_RECV_CONTEXT@,
        SESSION_SEND_CONTEXT@ != SESSION_ROOT_CONTEXT@,
        SESSION_RECV_CONTEXT@ != SESSION_ROOT_CONTEXT@,
{
    reveal_strlit("meshtalk 2026 session-send v1");
    reveal_strlit("meshtalk 2026 session-recv v1");
    reveal_strlit("meshtalk 2026 session-root v1");
    assert(SESSION_SEND_CONTEXT@[22] == 's');
    assert(SESSION_RECV_CONTEXT@[22] == 'r');
    assert(SESSION_ROOT_CONTEXT@[23] == 'o');
    assert(SESSION_RECV_CONTEXT@[23] == 'e');
    assert(SESSION_ROOT_CONTEXT@[22] == 'r');
}

// ---------------------------------------------------------------------------------------------
// Sessions
// ---------------------------------------------------------------------------------------------

/// What a session consists of.
pub struct SessionData {
    pub local: Seq<u8>,
    pub peer: Seq<u8>,
    pub keys: SessionKeys,
}

impl SessionData {
    /// The key the local party encrypts with.
    pub open spec fn outbound(self) -> Seq<u8> {
        self.keys.sending(self.local, self.peer)
    }

    /// The key the local party decrypts with.
    pub open spec fn inbound(self) -> Seq<u8> {
        self.keys.receiving(self.local, self.peer)
    }
}

/// The session of the owner of `seed` with a peer; `None` where the peer's key would force the
/// shared secret.
pub open spec fn session_of(seed: Seq<u8>, peer: PublicIdentityData) -> Option<SessionData> {
    match identity::agreed(seed, peer.x25519_public) {
        Some(shared) => Some(
            SessionData {
                local: primitives::ed25519_public(seed),
                peer: peer.node_id,
                keys: session_keys(
                    shared,
                    primitives::ed25519_public(seed),
                    peer.node_id,
                    identity::x25519_public_of(seed),
                    peer.x25519_public,
                ),
            },
        ),
        None => None,
    }
}

/// The sessions of two parties fit together: what one encrypts with, the other decrypts with.
pub open spec fn mirrored(mine: Option<SessionData>, theirs: Option<SessionData>) -> bool {
    match (mine, theirs) {
        (Some(m), Some(t)) => {
            &&& m.local == t.peer
            &&& m.peer == t.local
            &&& m.outbound() == t.inbound()
            &&& m.inbound() == t.outbound()
        },
        (None, None) => true,
        _ => false,
    }
}

/// An established session with one peer.
pub struct Session {
    local: NodeId,
    peer: NodeId,
    keys: SessionKeyPair,
}

impl View for Session {
    type V = SessionData;

    closed spec fn view(&self) -> SessionData {
        SessionData { local: self.local@, peer: self.peer@, keys: self.keys@ }
    }
}

impl Session {
    /// Establishes the session with a verified peer, or `None` where the peer's key would force
    /// the shared secret. The owner of the peer's keys establishes the mirror image of it.
    pub fn establish(local_identity: &Identity, peer: &VerifiedPublicIdentity) -> (session: Option<Session>)
        ensures
            session is Some <==> session_of(local_identity@, peer@) is Some,
            session matches Some(s) ==> session_of(local_identity@, peer@) == Some(s@),
            forall|other: Seq<u8>|
                #![trigger session_of(other, public_identity_of(local_identity@))]
                identity::x25519_secret_of(other).len() == 32 && primitives::ed25519_public(other)
                    == peer@.node_id && identity::x25519_public_of(other) == peer@.x25519_public
                    && primitives::ed25519_public(local_identity@) != peer@.node_id ==> mirrored(
                    session_of(local_identity@, peer@),
                    session_of(other, public_identity_of(local_identity@)),
                ),
    {
        let peer_x25519 = peer.x25519_public();
        let local_id = local_identity.node_id();
        let peer_id = peer.node_id();
        let shared = local_identity.derive_shared_secret(&peer_x25519);
        proof {
            let mine = local_identity@;
            assert forall|other: Seq<u8>|
                #![trigger session_of(other, public_identity_of(mine))]
                identity::x25519_secret_of(other).len() == 32 && primitives::ed25519_public(other)
                    == peer@.node_id && identity::x25519_public_of(other) == peer@.x25519_public
                    && primitives::ed25519_public(mine) != peer@.node_id implies mirrored(
                session_of(mine, peer@),
                session_of(other, public_identity_of(mine)),
            ) by {
                assert(identity::agreed(other, identity::x25519_public_of(mine))
                    == identity::agreed(mine, peer@.x25519_public));
                if identity::agreed(mine, peer@.x25519_public) is Some {
                    let secret = identity::agreed(mine, peer@.x25519_public)->0;
                    law_session_keys_are_symmetric(
                        secret,
                        local_id@,
                        peer_id@,
                        identity::x25519_public_of(mine),
                        peer@.x25519_public,
                    );
                    let keys = session_keys(
                        secret,
                        local_id@,
                        peer_id@,
                        identity::x25519_public_of(mine),
                        peer@.x25519_public,
                    );
                    law_directions_mirror(keys, local_id@, peer_id@);
                }
            }
        }
        match shared {
            Some(secret) => {
                let keys = SessionKeyPair::derive(
                    &secret,
                    &local_id,
                    &peer_id,
                    &local_identity.x25519_public(),
                    &peer_x25519,
                );
                Some(Session { local: local_id, peer: peer_id, keys })
            },
            None => None,
        }
    }

    /// The local party.
    pub fn local_node_id(&self) -> (id: NodeId)
        ensures
            id@ == self@.local,
    {
        self.local
    }

    /// The peer.
    pub fn peer_node_id(&self) -> (id: NodeId)
        ensures
            id@ == self@.peer,
    {
        self.peer
    }

    /// The key to encrypt with.
    pub fn outbound_key(&self) -> (key: [u8; 32])
        ensures
            key@ == self@.outbound(),
    {
        self.keys.send_key(&self.local, &self.peer)
    }

    /// The key to decrypt with.
    pub fn inbound_key(&self) -> (key: [u8; 32])
        ensures
            key@ == self@.inbound(),
    {
        self.keys.recv_key(&self.local, &self.peer)
    }
}

/// The name that is shown of a contact is the one the user gave it; without one, the name it gives
/// itself; without that, the first six digits of its id.
pub proof fn law_users_name_goes_first(contact: ContactData)
    requires
        contact.public_identity.node_id.len() == 32,
    ensures
        contact.local_alias is Some ==> contact.shown_name() == contact.local_alias->0,
        contact.local_alias is None && contact.advertised_name is Some ==> contact.shown_name()
            == contact.advertised_name->0,
        contact.local_alias is None && contact.advertised_name is None ==> contact.shown_name()
            == bytes::hex_text(contact.public_identity.node_id).take(6),
{
    identity::law_short_id_starts_the_id(contact.public_identity.node_id);
}

/// What happens to a contact changes what it is about and nothing else: being met makes an
/// unverified contact, being seen sets the time, verifying grants trust and drops the warning, a
/// change of key withdraws trust and raises the warning, and dismissing drops the warning.
pub proof fn law_contacts_change_only_where_meant(
    contact: ContactData,
    public_identity: PublicIdentityData,
    name: Option<Seq<char>>,
    now_ms: u64,
)
    ensures
        ({
            let met = ContactData::first_met(public_identity, name, now_ms);
            &&& met.public_identity == public_identity
            &&& met.advertised_name == name
            &&& met.local_alias is None
            &&& met.verification == VerificationState::Unverified
            &&& met.first_seen_ms == now_ms
            &&& met.last_seen_ms == now_ms
            &&& !met.identity_change_pending
        }),
        contact.seen_at(now_ms) == (ContactData { last_seen_ms: now_ms, ..contact }),
        contact.verified() == (ContactData {
            verification: VerificationState::Verified,
            identity_change_pending: false,
            ..contact
        }),
        contact.with_change_pending() == (ContactData {
            verification: VerificationState::Unverified,
            identity_change_pending: true,
            ..contact
        }),
        contact.with_change_acknowledged() == (ContactData {
            identity_change_pending: false,
            ..contact
        }),
{
}

/// The root key is derived from all that makes the session: the shared secret, both nodes and both
/// keys. What it is derived from is the same only where they are the same, whoever is named first.
pub proof fn law_root_key_binds_everything(
    shared: [u8; 32],
    node_a: NodeId,
    node_b: NodeId,
    key_a: X25519Public,
    key_b: X25519Public,
    other_shared: [u8; 32],
    other_a: NodeId,
    other_b: NodeId,
    other_key_a: X25519Public,
    other_key_b: X25519Public,
)
    requires
        root_material(shared@, node_a@, node_b@, key_a@, key_b@) == root_material(
            other_shared@,
            other_a@,
            other_b@,
            other_key_a@,
            other_key_b@,
        ),
    ensures
        shared == other_shared,
        (node_a, node_b, key_a, key_b) == (other_a, other_b, other_key_a, other_key_b) || (
        node_a,
        node_b,
        key_a,
        key_b,
    ) == (other_b, other_a, other_key_b, other_key_a),
{
    let versions = seq![PROTOCOL_VERSION, SESSION_PROTOCOL_VERSION];
    let (n1, n2, k1, k2) = if bytes::not_after(node_a@, node_b@) {
        (node_a, node_b, key_a, key_b)
    } else {
        (node_b, node_a, key_b, key_a)
    };
    let (m1, m2, l1, l2) = if bytes::not_after(other_a@, other_b@) {
        (other_a, other_b, other_key_a, other_key_b)
    } else {
        (other_b, other_a, other_key_b, other_key_a)
    };
    let (s, t) = (versions + shared@, versions + other_shared@);
    bytes::lemma_split(s + n1@ + n2@ + k1@, k2@, t + m1@ + m2@ + l1@, l2@);
    bytes::lemma_split(s + n1@ + n2@, k1@, t + m1@ + m2@, l1@);
    bytes::lemma_split(s + n1@, n2@, t + m1@, m2@);
    bytes::lemma_split(s, n1@, t, m1@);
    bytes::lemma_split(versions, shared@, versions, other_shared@);
    bytes::lemma_array_ext(shared, other_shared);
    bytes::lemma_array_ext(n1, m1);
    bytes::lemma_array_ext(n2, m2);
    bytes::lemma_array_ext(k1, l1);
    bytes::lemma_array_ext(k2, l2);
}

/// What the root key is derived from is laid out in an order that both ends agree on: the versions,
/// the shared secret, the two nodes with the lower first, and their keys in the same order. The
/// lower node sends with the key that the other receives with.
pub proof fn law_lower_node_goes_first(
    shared: [u8; 32],
    low: NodeId,
    high: NodeId,
    low_key: X25519Public,
    high_key: X25519Public,
    k: int,
)
    requires
        0 <= k < 32,
        forall|i: int| 0 <= i < k ==> #[trigger] low@[i] == high@[i],
        low@[k] < high@[k],
    ensures
        ({
            let s = root_material(shared@, low@, high@, low_key@, high_key@);
            let keys = session_keys(shared@, low@, high@, low_key@, high_key@);
            let root = primitives::blake3_derived("meshtalk 2026 session-root v1"@, s);
            &&& s.len() == 162
            &&& s[0] == 3
            &&& s[1] == 1
            &&& s.subrange(2, 34) == shared@
            &&& s.subrange(34, 66) == low@
            &&& s.subrange(66, 98) == high@
            &&& s.subrange(98, 130) == low_key@
            &&& s.subrange(130, 162) == high_key@
            &&& root_material(shared@, high@, low@, high_key@, low_key@) == s
            &&& keys.sending(low@, high@) == primitives::blake3_derived(
                "meshtalk 2026 session-send v1"@,
                root,
            )
            &&& keys.receiving(low@, high@) == primitives::blake3_derived(
                "meshtalk 2026 session-recv v1"@,
                root,
            )
            &&& keys.sending(high@, low@) == keys.receiving(low@, high@)
            &&& keys.receiving(high@, low@) == keys.sending(low@, high@)
        }),
{
    let s = root_material(shared@, low@, high@, low_key@, high_key@);
    assert(bytes::before(low@, high@));
    bytes::lemma_order(low@, high@);
    assert(s.subrange(2, 34) =~= shared@);
    assert(s.subrange(34, 66) =~= low@);
    assert(s.subrange(66, 98) =~= high@);
    assert(s.subrange(98, 130) =~= low_key@);
    assert(s.subrange(130, 162) =~= high_key@);
}

} // verus!
