//! The mesh node: what a node does with messages of its own and with packets it receives.
//!
//! Messages travel by flooding. Every node hands a packet on to all its neighbours, once and
//! within the hop budget, whether or not it can read it; so a message reaches nodes far beyond
//! the sender's own range.
//!
//! A node decides, and leaves the doing to its caller: it hands out bytes to send and content to
//! store, and is told afterwards what came of it. Time is an argument. Nothing here waits.
//!
//! A packet that has been authenticated has not been handled yet. It counts as handled, and is
//! dropped when it comes again, only once what was to be done with it has been done: forwarded to
//! every neighbour, decrypted, or, for chat, stored for good. A chat message is acknowledged
//! only when it has been stored.

use vstd::prelude::*;
use vstd::string::*;
use vstd::utf8::*;

use crate::bytes;
use crate::call::{CallFrame, CallMessage, CallMessageData, CallSignal, MediaKind};
use crate::codec;
use crate::crypto::ChannelKey;
use crate::delivery_store;
use crate::delivery_store::{DeliveryStore, DueMessage, OutboundData};
use crate::direct_crypto;
use crate::direct_crypto::{
    DirectCryptoError, DirectCryptoHeaderV1, DirectEnvelopeBody, DirectEnvelopeBodyData,
    DirectMessageAadV1,
};
use crate::flood_guard;
use crate::flood_guard::FloodGuard;
use crate::forward_store;
use crate::forward_store::{DueForward, ForwardAttempt, ForwardData, ForwardState, ForwardStore};
use crate::identity;
use crate::identity::{Identity, NodeId};
use crate::inbox_store;
use crate::inbox_store::{InboxError, InboxMessage, InboxStore, InsertOutcome, StoredData, StoredMessage};
use crate::message::{EncryptionMode, Envelope, EnvelopeData, MessageType, PROTOCOL_VERSION};
use crate::payload;
use crate::payload::{
    Chunk, ChunkData, ContentData, ContentKind, DeliveryAck, PayloadData, ReceivedContent,
    TransferProgress, WirePayload, CHUNK_SIZE,
};
use crate::primitives;
use crate::reassembly;
use crate::reassembly::{Accepted, AcceptedData, Reassembler, TransferData};
use crate::replay_store;
use crate::replay_store::{ReplayStore, SeenMessage};
use crate::session;
use crate::session::{PublicIdentity, PublicIdentityData, Session};
use crate::table;
use crate::timeline;
use crate::wire;

verus! {

broadcast use vstd::string::group_string_axioms;

/// How long a message is valid: five minutes.
pub const MESSAGE_LIFETIME_MS: u64 = 300_000;

/// How many chunks are sent back to back before a short pause.
pub const CHUNK_BURST_SIZE: usize = 16;

/// The pause between bursts.
pub const CHUNK_BURST_PAUSE_MS: u64 = 8;

/// The largest packet that is looked at. No genuine envelope comes near.
pub const MAX_ENVELOPE_BYTES: usize = 65_536;

// ---------------------------------------------------------------------------------------------
// Destinations and errors
// ---------------------------------------------------------------------------------------------

/// Who a payload is for, and how it is encrypted. The scheme is never inferred from whether
/// there is a recipient.
#[derive(Debug)]
pub enum Destination {
    /// Everyone on the channel, under the channel key.
    Broadcast,
    /// One node, under the channel key: calls.
    ChannelDirect(NodeId),
    /// One node, under keys only the two share: chat.
    DirectV1(PublicIdentity),
}

/// Who a payload is for.
pub enum DestinationData {
    Broadcast,
    ChannelDirect(NodeId),
    DirectV1(NodeId, PublicIdentityData),
}

impl View for Destination {
    type V = DestinationData;

    open spec fn view(&self) -> DestinationData {
        match self {
            Destination::Broadcast => DestinationData::Broadcast,
            Destination::ChannelDirect(target) => DestinationData::ChannelDirect(*target),
            Destination::DirectV1(identity) => DestinationData::DirectV1(
                identity.node_id,
                identity@,
            ),
        }
    }
}

impl DestinationData {
    /// The recipient an envelope names.
    pub open spec fn recipient(self) -> Option<NodeId> {
        match self {
            DestinationData::Broadcast => None,
            DestinationData::ChannelDirect(target) => Some(target),
            DestinationData::DirectV1(id, identity) => Some(id),
        }
    }
}

impl Destination {
    /// The recipient an envelope names.
    pub fn recipient_node_id(&self) -> (recipient: Option<NodeId>)
        ensures
            recipient == self@.recipient(),
    {
        match self {
            Destination::Broadcast => None,
            Destination::ChannelDirect(target) => Some(*target),
            Destination::DirectV1(identity) => Some(identity.node_id),
        }
    }
}

/// Why a node could not do what it was asked to.
#[derive(Clone, Copy, Debug, PartialEq, Eq, Structural)]
pub enum NodeError {
    /// The message cannot be encrypted for its recipient. Nothing was sent.
    Crypto(DirectCryptoError),
    /// The text needs this many chunks, and reliable delivery takes one. Nothing was sent.
    TooLongForReliableDelivery(usize),
    /// The payload is longer than the cipher can seal. Nothing was sent.
    PayloadTooLarge,
    /// The packet is not an envelope.
    MalformedPacket,
}

// ---------------------------------------------------------------------------------------------
// What a node hands out
// ---------------------------------------------------------------------------------------------

/// Bytes to be sent to every neighbour.
#[derive(Debug)]
pub struct Outgoing {
    pub message_id: [u8; 16],
    pub bytes: Vec<u8>,
}

/// Content that has been received and stored.
#[derive(Debug)]
pub struct DeliveredContent {
    pub sender: NodeId,
    /// The sender's identity, where the message was direct.
    pub sender_identity: Option<PublicIdentity>,
    /// The id of the envelope that completed the content.
    pub message_id: [u8; 16],
    pub content: ReceivedContent,
}

/// What delivered content says.
pub struct DeliveredData {
    pub sender: NodeId,
    pub sender_identity: Option<PublicIdentityData>,
    pub message_id: [u8; 16],
    pub content: ContentData,
}

/// What an optional identity says.
pub open spec fn identity_view(identity: Option<PublicIdentity>) -> Option<PublicIdentityData> {
    match identity {
        Some(i) => Some(i@),
        None => None,
    }
}

impl View for DeliveredContent {
    type V = DeliveredData;

    open spec fn view(&self) -> DeliveredData {
        DeliveredData {
            sender: self.sender,
            sender_identity: identity_view(self.sender_identity),
            message_id: self.message_id,
            content: self.content@,
        }
    }
}

/// News for the application.
#[derive(Debug)]
pub enum IncomingEvent {
    /// A transfer from a node has come this far.
    Progress(NodeId, TransferProgress),
    /// Content has arrived and has been stored.
    Content(DeliveredContent),
    /// A call message for us from a node.
    Call(NodeId, CallMessage),
}

/// What news says.
pub enum EventData {
    Progress(NodeId, TransferProgress),
    Content(DeliveredData),
    Call(NodeId, CallMessageData),
}

impl View for IncomingEvent {
    type V = EventData;

    open spec fn view(&self) -> EventData {
        match self {
            IncomingEvent::Progress(sender, progress) => EventData::Progress(*sender, *progress),
            IncomingEvent::Content(delivered) => EventData::Content(delivered@),
            IncomingEvent::Call(sender, message) => EventData::Call(*sender, message@),
        }
    }
}

/// A packet for someone else, to be forwarded to every neighbour with a record of each.
#[derive(Debug)]
pub struct ForwardTask {
    pub sender: NodeId,
    pub message_id: [u8; 16],
    pub expires_at: u64,
    pub bytes: Vec<u8>,
}

/// How a packet is to be handed on.
#[derive(Debug)]
pub enum Relay {
    /// Not at all.
    Nothing,
    /// To every neighbour, once, whatever comes of it.
    Flood(Outgoing),
    /// To every neighbour, until each has it.
    Track(ForwardTask),
}

/// How a packet is to be handed on.
pub enum RelayData {
    Nothing,
    Flood { message_id: [u8; 16], bytes: Seq<u8> },
    Track { sender: NodeId, message_id: [u8; 16], expires_at: u64, bytes: Seq<u8> },
}

impl View for Relay {
    type V = RelayData;

    open spec fn view(&self) -> RelayData {
        match self {
            Relay::Nothing => RelayData::Nothing,
            Relay::Flood(outgoing) => RelayData::Flood {
                message_id: outgoing.message_id,
                bytes: outgoing.bytes@,
            },
            Relay::Track(forward) => RelayData::Track {
                sender: forward.sender,
                message_id: forward.message_id,
                expires_at: forward.expires_at,
                bytes: forward.bytes@,
            },
        }
    }
}

/// Content that is complete and has yet to be stored.
#[derive(Debug)]
pub struct PendingContent {
    pub sender: NodeId,
    pub sender_identity: Option<PublicIdentity>,
    pub message_id: [u8; 16],
    pub expires_at: u64,
    pub content: ReceivedContent,
}

/// What content to be stored says.
pub struct PendingData {
    pub sender: NodeId,
    pub sender_identity: Option<PublicIdentityData>,
    pub message_id: [u8; 16],
    pub expires_at: u64,
    pub content: ContentData,
}

impl View for PendingContent {
    type V = PendingData;

    open spec fn view(&self) -> PendingData {
        PendingData {
            sender: self.sender,
            sender_identity: identity_view(self.sender_identity),
            message_id: self.message_id,
            expires_at: self.expires_at,
            content: self.content@,
        }
    }
}

/// What a packet means for this node itself.
#[derive(Debug)]
pub enum Local {
    /// Nothing.
    Nothing,
    /// A message stored earlier came again: its acknowledgement was lost and is to be sent again.
    Acknowledge(PublicIdentity, [u8; 16]),
    /// News for the application.
    Event(IncomingEvent),
    /// Content to be stored, before it is acknowledged or shown.
    Store(PendingContent),
}

/// What a packet means for this node itself.
pub enum LocalData {
    Nothing,
    Acknowledge(PublicIdentityData, [u8; 16]),
    Event(EventData),
    Store(PendingData),
}

impl View for Local {
    type V = LocalData;

    open spec fn view(&self) -> LocalData {
        match self {
            Local::Nothing => LocalData::Nothing,
            Local::Acknowledge(to, message_id) => LocalData::Acknowledge(to@, *message_id),
            Local::Event(event) => LocalData::Event(event@),
            Local::Store(pending) => LocalData::Store(pending@),
        }
    }
}

/// What is to be done about a packet: hand it on first, then see to it.
#[derive(Debug)]
pub struct Incoming {
    pub relay: Relay,
    pub local: Local,
}

/// What is to be done about a packet.
pub struct IncomingData {
    pub relay: RelayData,
    pub local: LocalData,
}

impl View for Incoming {
    type V = IncomingData;

    open spec fn view(&self) -> IncomingData {
        IncomingData { relay: self.relay@, local: self.local@ }
    }
}

/// Nothing is to be done.
pub open spec fn ignored() -> IncomingData {
    IncomingData { relay: RelayData::Nothing, local: LocalData::Nothing }
}

/// What follows once content has been stored, or could not be.
#[derive(Debug)]
pub struct Settled {
    /// The acknowledgement to send: to whom, for which message.
    pub acknowledge: Option<(PublicIdentity, [u8; 16])>,
    /// News for the application.
    pub event: Option<IncomingEvent>,
}

/// What follows once content has been stored, or could not be.
pub struct SettledData {
    pub acknowledge: Option<(PublicIdentityData, [u8; 16])>,
    pub event: Option<EventData>,
}

impl View for Settled {
    type V = SettledData;

    open spec fn view(&self) -> SettledData {
        SettledData {
            acknowledge: match self.acknowledge {
                Some(a) => Some((a.0@, a.1)),
                None => None,
            },
            event: match self.event {
                Some(e) => Some(e@),
                None => None,
            },
        }
    }
}

// ---------------------------------------------------------------------------------------------
// The state of a node
// ---------------------------------------------------------------------------------------------

/// All that a node knows.
pub struct NodeData {
    pub id: NodeId,
    pub seed: Seq<u8>,
    pub channel_key: Seq<u8>,
    pub max_hops: u8,
    pub replay: Seq<SeenMessage>,
    pub replay_limit: nat,
    pub flood: Seq<(NodeId, [u8; 16])>,
    pub flood_limit: nat,
    pub delivery: Seq<OutboundData>,
    pub delivery_limit: nat,
    pub forward: Seq<ForwardData>,
    pub forward_limit: nat,
    pub inbox: Seq<StoredData>,
    pub inbox_limit: nat,
    pub inbox_key: Seq<u8>,
    pub transfers: Seq<TransferData>,
}

impl NodeData {
    /// The node's id belongs to its seed, and its stores hold nothing twice.
    pub open spec fn well_formed(self) -> bool {
        &&& self.id@ == primitives::ed25519_public(self.seed)
        &&& replay_store::one_row_each(self.replay)
        &&& delivery_store::one_row_each(self.delivery)
        &&& forward_store::one_row_each(self.forward)
        &&& inbox_store::one_row_each(self.inbox)
        &&& flood_guard::well_kept(self.flood, self.flood_limit)
    }

    /// The node after it has met a packet.
    pub open spec fn having_met(self, sender: NodeId, message_id: [u8; 16]) -> NodeData {
        NodeData {
            flood: flood_guard::recorded(self.flood, (sender, message_id), self.flood_limit),
            ..self
        }
    }

    /// The node after it has handled a message.
    pub open spec fn having_handled(
        self,
        sender: NodeId,
        message_id: [u8; 16],
        now_ms: u64,
        expires_at_ms: u64,
    ) -> NodeData {
        NodeData {
            replay: replay_store::marked(
                self.replay,
                sender,
                message_id,
                now_ms,
                expires_at_ms,
                self.replay_limit,
            ),
            ..self
        }
    }
}

/// A node of the mesh.
pub struct MeshNode {
    identity: Identity,
    channel_key: ChannelKey,
    replay_store: ReplayStore,
    flood_guard: FloodGuard,
    delivery: DeliveryStore,
    forward: ForwardStore,
    inbox: InboxStore,
    reassembler: Reassembler,
    default_max_hops: u8,
}

impl View for MeshNode {
    type V = NodeData;

    closed spec fn view(&self) -> NodeData {
        NodeData {
            id: self.identity.id(),
            seed: self.identity@,
            channel_key: self.channel_key@,
            max_hops: self.default_max_hops,
            replay: self.replay_store@,
            replay_limit: self.replay_store.limit(),
            flood: self.flood_guard@,
            flood_limit: self.flood_guard.limit(),
            delivery: self.delivery@,
            delivery_limit: self.delivery.limit(),
            forward: self.forward@,
            forward_limit: self.forward.limit(),
            inbox: self.inbox@,
            inbox_limit: self.inbox.limit(),
            inbox_key: self.inbox.storage_key(),
            transfers: self.reassembler@,
        }
    }
}

// ---------------------------------------------------------------------------------------------
// Building and reading envelopes
// ---------------------------------------------------------------------------------------------

/// What a direct envelope's ciphertext is bound to, read by `recipient`.
pub open spec fn aad_of(e: EnvelopeData, recipient: NodeId) -> DirectMessageAadV1 {
    DirectMessageAadV1 {
        protocol_version: e.protocol_version,
        encryption_version: direct_crypto::ENCRYPTION_VERSION,
        message_id: e.message_id,
        sender: e.sender,
        recipient,
        message_type: e.message_type,
        created_at: e.created_at,
        expires_at: e.expires_at,
        max_hops: e.max_hops,
    }
}

/// The body of a direct envelope from the owner of `seed`.
pub open spec fn body_of(
    seed: Seq<u8>,
    to: PublicIdentityData,
    aad: DirectMessageAadV1,
    plaintext: Seq<u8>,
    nonce: Seq<u8>,
) -> DirectEnvelopeBodyData {
    DirectEnvelopeBodyData {
        header: direct_crypto::header_of(seed),
        message: direct_crypto::direct_sealed(
            seed,
            session::session_of(seed, to)->0,
            aad,
            plaintext,
            nonce,
        ),
    }
}

/// The signature of an envelope is well formed and its sender's.
pub open spec fn authentic(e: EnvelopeData) -> bool {
    e.signature.len() == 64 && primitives::ed25519_accepts(
        e.sender@,
        e.signed_bytes(),
        e.signature,
    )
}

/// The ciphertext of an envelope is that of a payload.
pub open spec fn carries(
    e: EnvelopeData,
    node: NodeData,
    destination: DestinationData,
    payload: PayloadData,
) -> bool {
    match destination {
        DestinationData::DirectV1(id, to) => {
            &&& e.encryption_mode == EncryptionMode::DirectV1
            &&& e.nonce@ == Seq::new(24, |i: int| 0u8)
            &&& wire::body_in(e.ciphertext) is Some
            &&& wire::body_in(e.ciphertext)->0 == body_of(
                node.seed,
                to,
                aad_of(e, id),
                wire::payload_bytes(payload),
                wire::body_in(e.ciphertext)->0.message.nonce,
            )
        },
        _ => {
            &&& e.encryption_mode == EncryptionMode::ChannelV1
            &&& e.ciphertext == primitives::xchacha_sealed(
                node.channel_key,
                e.nonce@,
                Seq::empty(),
                wire::payload_bytes(payload),
            )
        },
    }
}

/// How long the ciphertext of a payload is: the sealed payload, and for a direct message the
/// header, nonce, lengths and two signatures around it.
pub open spec fn ciphertext_len(destination: DestinationData, payload: PayloadData) -> int {
    let sealed = wire::payload_len(payload) + primitives::TAG_LEN;
    if destination is DirectV1 {
        sealed + 208
    } else {
        sealed
    }
}

/// An envelope is the one a node builds for a payload at `now_ms`. Only the message id and the
/// nonce are left to chance.
pub open spec fn built(
    e: EnvelopeData,
    node: NodeData,
    destination: DestinationData,
    message_type: MessageType,
    payload: PayloadData,
    now_ms: u64,
) -> bool {
    &&& e.protocol_version == PROTOCOL_VERSION
    &&& e.sender == node.id
    &&& e.recipient == destination.recipient()
    &&& e.message_type == message_type
    &&& e.created_at == now_ms
    &&& e.expires_at == now_ms + MESSAGE_LIFETIME_MS
    &&& e.max_hops == node.max_hops
    &&& e.hops_used == 0
    &&& e.signature == primitives::ed25519_signature(node.seed, e.signed_bytes())
    &&& authentic(e)
    &&& carries(e, node, destination, payload)
    &&& e.ciphertext.len() == ciphertext_len(destination, payload)
}

/// Why a payload cannot be sent to a destination; `None` where it can.
pub open spec fn refusal(node: NodeData, destination: DestinationData, payload: PayloadData) -> Option<NodeError> {
    if wire::payload_len(payload) > primitives::MAX_PLAINTEXT_LEN {
        Some(NodeError::PayloadTooLarge)
    } else {
        match destination {
            DestinationData::DirectV1(id, to) => if to.bound() && session::session_of(
                node.seed,
                to,
            ) is Some {
                None
            } else {
                Some(NodeError::Crypto(DirectCryptoError::CannotEncryptForRecipient))
            },
            _ => None,
        }
    }
}

/// What the owner of `seed` and `channel_key`, known as `id`, reads in an envelope: the payload
/// and, in a direct one, the sender's identity.
pub open spec fn read_by(
    id: NodeId,
    seed: Seq<u8>,
    channel_key: Seq<u8>,
    e: EnvelopeData,
) -> Option<(PayloadData, Option<PublicIdentityData>)> {
    match e.encryption_mode {
        EncryptionMode::ChannelV1 => match primitives::opened(
            channel_key,
            e.nonce@,
            Seq::empty(),
            e.ciphertext,
        ) {
            Some(plaintext) => match wire::payload_in(plaintext) {
                Some(payload) => Some((payload, None)),
                None => None,
            },
            None => None,
        },
        EncryptionMode::DirectV1 => match wire::body_in(e.ciphertext) {
            Some(body) => {
                let sender = body.header.claimed(e.sender@);
                if sender.bound() {
                    match session::session_of(seed, sender) {
                        Some(session) => match direct_crypto::direct_opened(
                            session,
                            e.sender@,
                            aad_of(e, id),
                            body.message,
                        ) {
                            Ok(plaintext) => match wire::payload_in(plaintext) {
                                Some(payload) => Some((payload, Some(sender))),
                                None => None,
                            },
                            Err(_) => None,
                        },
                        None => None,
                    }
                } else {
                    None
                }
            },
            None => None,
        },
    }
}

/// Everyone an envelope is meant for reads the payload in it: a holder of the channel key, or
/// the owner of the keys a direct message was addressed to, who is told the sender's identity.
pub open spec fn readable(
    e: EnvelopeData,
    node: NodeData,
    destination: DestinationData,
    payload: PayloadData,
) -> bool {
    match destination {
        DestinationData::DirectV1(id, to) => forall|seed: Seq<u8>, channel_key: Seq<u8>|
            #![trigger read_by(id, seed, channel_key, e)]
            identity::x25519_secret_of(seed).len() == 32 && primitives::ed25519_public(seed)
                == to.node_id && identity::x25519_public_of(seed) == to.x25519_public && node.id@
                != to.node_id ==> read_by(id, seed, channel_key, e) == Some(
                (payload, Some(session::public_identity_of(node.seed))),
            ),
        _ => forall|id: NodeId, seed: Seq<u8>|
            #![trigger read_by(id, seed, node.channel_key, e)]
            read_by(id, seed, node.channel_key, e) == Some(
                (payload, None::<PublicIdentityData>),
            ),
    }
}

impl MeshNode {
    /// Builds and signs an envelope for a payload, without sending or recording anything. It
    /// fails closed: where the recipient's keys do not check out, nothing weaker is tried.
    pub fn build_envelope(
        &self,
        destination: &Destination,
        message_type: MessageType,
        payload: &WirePayload,
        now_ms: u64,
    ) -> (result: Result<Envelope, NodeError>)
        requires
            now_ms + MESSAGE_LIFETIME_MS <= u64::MAX,
        ensures
            match result {
                Ok(e) => {
                    &&& refusal(self@, destination@, payload@) is None
                    &&& built(e@, self@, destination@, message_type, payload@, now_ms)
                    &&& readable(e@, self@, destination@, payload@)
                },
                Err(error) => refusal(self@, destination@, payload@) == Some(error),
            },
    {
        let plaintext = wire::encode_payload(payload);
        if plaintext.len() as u64 > primitives::MAX_PLAINTEXT_LEN {
            return Err(NodeError::PayloadTooLarge);
        }
        let message_id: [u8; 16] = primitives::random_bytes();
        let sender = self.identity.node_id();
        let expires_at: u64 = now_ms + MESSAGE_LIFETIME_MS;
        let recipient = destination.recipient_node_id();
        let (encryption_mode, nonce, ciphertext) = match destination {
            Destination::DirectV1(recipient_identity) => {
                let ghost to = recipient_identity@;
                let verified = match recipient_identity.clone().verify() {
                    Ok(verified) => verified,
                    Err(_) => {
                        return Err(NodeError::Crypto(DirectCryptoError::CannotEncryptForRecipient));
                    },
                };
                let session = match Session::establish(&self.identity, &verified) {
                    Some(session) => session,
                    None => {
                        return Err(NodeError::Crypto(DirectCryptoError::CannotEncryptForRecipient));
                    },
                };
                let aad = DirectMessageAadV1::new(
                    PROTOCOL_VERSION,
                    message_id,
                    sender,
                    recipient_identity.node_id,
                    message_type,
                    now_ms,
                    expires_at,
                    self.default_max_hops,
                );
                let sealed = direct_crypto::encrypt_direct_message(
                    &self.identity,
                    &session,
                    &aad,
                    plaintext.as_slice(),
                );
                let body = DirectEnvelopeBody {
                    header: DirectCryptoHeaderV1::new(&self.identity),
                    message: sealed,
                };
                let zeros: [u8; 24] = [0u8; 24];
                assert(zeros@ =~= Seq::new(24, |i: int| 0u8));
                (EncryptionMode::DirectV1, zeros, wire::encode_body(&body))
            },
            _ => {
                let (ciphertext, nonce) = self.channel_key.encrypt(plaintext.as_slice());
                (EncryptionMode::ChannelV1, nonce, ciphertext)
            },
        };
        let mut envelope = Envelope {
            protocol_version: PROTOCOL_VERSION,
            message_id,
            sender,
            recipient,
            message_type,
            encryption_mode,
            created_at: now_ms,
            expires_at,
            max_hops: self.default_max_hops,
            hops_used: 0,
            nonce,
            ciphertext,
            signature: Vec::new(),
        };
        let payload_bytes = envelope.signed_payload();
        let ghost unsigned = envelope@;
        let signature = self.identity.sign(payload_bytes.as_slice());
        envelope.signature = bytes::to_vec(signature.as_slice());
        assert(envelope@.signed_bytes() == unsigned.signed_bytes());
        Ok(envelope)
    }

    /// Reads an envelope: the payload and, in a direct one, the sender's verified identity.
    pub fn decrypt_payload(&self, envelope: &Envelope) -> (result: Option<(WirePayload, Option<PublicIdentity>)>)
        ensures
            result is Some <==> read_by(self@.id, self@.seed, self@.channel_key, envelope@) is Some,
            result matches Some(r) ==> read_by(
                self@.id,
                self@.seed,
                self@.channel_key,
                envelope@,
            ) == Some((r.0@, identity_view(r.1))),
            result matches Some(r) ==> (r.1 matches Some(i) ==> i.node_id == envelope.sender),
    {
        match envelope.encryption_mode {
            EncryptionMode::ChannelV1 => {
                let plaintext = match self.channel_key.decrypt(
                    envelope.ciphertext.as_slice(),
                    &envelope.nonce,
                ) {
                    Some(plaintext) => plaintext,
                    None => {
                        return None;
                    },
                };
                match wire::decode_payload(plaintext.as_slice()) {
                    Some(payload) => Some((payload, None)),
                    None => None,
                }
            },
            EncryptionMode::DirectV1 => {
                let body = match wire::decode_body(envelope.ciphertext.as_slice()) {
                    Some(body) => body,
                    None => {
                        return None;
                    },
                };
                let verified = match body.header.verify_sender(envelope.sender) {
                    Some(verified) => verified,
                    None => {
                        return None;
                    },
                };
                let sender_identity = verified.public_identity().clone();
                let session = match Session::establish(&self.identity, &verified) {
                    Some(session) => session,
                    None => {
                        return None;
                    },
                };
                let aad = DirectMessageAadV1::new(
                    envelope.protocol_version,
                    envelope.message_id,
                    envelope.sender,
                    self.identity.node_id(),
                    envelope.message_type,
                    envelope.created_at,
                    envelope.expires_at,
                    envelope.max_hops,
                );
                assert(aad == aad_of(envelope@, self@.id));
                let plaintext = match direct_crypto::decrypt_direct_message(
                    &session,
                    &envelope.sender,
                    &aad,
                    &body.message,
                ) {
                    Ok(plaintext) => plaintext,
                    Err(_) => {
                        return None;
                    },
                };
                proof {
                    bytes::lemma_array_ext(sender_identity.node_id, envelope.sender);
                }
                match wire::decode_payload(plaintext.as_slice()) {
                    Some(payload) => Some((payload, Some(sender_identity))),
                    None => None,
                }
            },
        }
    }
}

// ---------------------------------------------------------------------------------------------
// Nodes and their parts
// ---------------------------------------------------------------------------------------------

impl MeshNode {
    /// A node that remembers nothing of earlier runs.
    pub fn new(identity: Identity, channel_key: ChannelKey, default_max_hops: u8) -> (node: MeshNode)
        ensures
            node@.id == identity.id(),
            node@.seed == identity@,
            node@.channel_key == channel_key@,
            node@.max_hops == default_max_hops,
            node@.replay == Seq::<SeenMessage>::empty(),
            node@.delivery == Seq::<OutboundData>::empty(),
            node@.forward == Seq::<ForwardData>::empty(),
            node@.inbox == Seq::<StoredData>::empty(),
            node@.flood == Seq::<(NodeId, [u8; 16])>::empty(),
            node@.transfers == Seq::<TransferData>::empty(),
            node@.replay_limit == replay_store::DEFAULT_REPLAY_STORE_CAPACITY,
            node@.delivery_limit == delivery_store::DEFAULT_DELIVERY_STORE_CAPACITY,
            node@.forward_limit == forward_store::DEFAULT_FORWARD_STORE_CAPACITY,
            node@.inbox_limit == inbox_store::DEFAULT_INBOX_STORE_CAPACITY,
            node@.flood_limit == flood_guard::DEFAULT_CAPACITY,
            node@.well_formed(),
    {
        Self::new_with_replay_store(identity, channel_key, default_max_hops, ReplayStore::in_memory())
    }

    /// A node that remembers which messages it has handled.
    pub fn new_with_replay_store(
        identity: Identity,
        channel_key: ChannelKey,
        default_max_hops: u8,
        replay_store: ReplayStore,
    ) -> (node: MeshNode)
        ensures
            node@.id == identity.id(),
            node@.seed == identity@,
            node@.channel_key == channel_key@,
            node@.max_hops == default_max_hops,
            node@.replay == replay_store@,
            node@.delivery == Seq::<OutboundData>::empty(),
            node@.forward == Seq::<ForwardData>::empty(),
            node@.inbox == Seq::<StoredData>::empty(),
            node@.flood == Seq::<(NodeId, [u8; 16])>::empty(),
            node@.transfers == Seq::<TransferData>::empty(),
            node@.replay_limit == replay_store.limit(),
            node@.delivery_limit == delivery_store::DEFAULT_DELIVERY_STORE_CAPACITY,
            node@.forward_limit == forward_store::DEFAULT_FORWARD_STORE_CAPACITY,
            node@.inbox_limit == inbox_store::DEFAULT_INBOX_STORE_CAPACITY,
            node@.flood_limit == flood_guard::DEFAULT_CAPACITY,
            replay_store.well_formed() ==> node@.well_formed(),
    {
        Self::new_with_stores(
            identity,
            channel_key,
            default_max_hops,
            replay_store,
            DeliveryStore::in_memory(),
            ForwardStore::in_memory(),
            InboxStore::in_memory(),
        )
    }

    /// A node that takes up where an earlier run left off.
    pub fn new_with_stores(
        identity: Identity,
        channel_key: ChannelKey,
        default_max_hops: u8,
        replay_store: ReplayStore,
        delivery_store: DeliveryStore,
        forward_store: ForwardStore,
        inbox_store: InboxStore,
    ) -> (node: MeshNode)
        ensures
            node@.id == identity.id(),
            node@.seed == identity@,
            node@.channel_key == channel_key@,
            node@.max_hops == default_max_hops,
            node@.replay == replay_store@,
            node@.replay_limit == replay_store.limit(),
            node@.delivery == delivery_store@,
            node@.delivery_limit == delivery_store.limit(),
            node@.forward == forward_store@,
            node@.forward_limit == forward_store.limit(),
            node@.inbox == inbox_store@,
            node@.inbox_limit == inbox_store.limit(),
            node@.inbox_key == inbox_store.storage_key(),
            node@.flood == Seq::<(NodeId, [u8; 16])>::empty(),
            node@.flood_limit == flood_guard::DEFAULT_CAPACITY,
            node@.transfers == Seq::<TransferData>::empty(),
            replay_store.well_formed() && delivery_store.well_formed()
                && forward_store.well_formed() && inbox_store.well_formed()
                ==> node@.well_formed(),
    {
        let _ = identity.node_id();
        MeshNode {
            identity,
            channel_key,
            replay_store,
            flood_guard: FloodGuard::new(),
            delivery: delivery_store,
            forward: forward_store,
            inbox: inbox_store,
            reassembler: Reassembler::new(),
            default_max_hops,
        }
    }

    /// The node's id.
    pub fn node_id(&self) -> (id: NodeId)
        ensures
            id == self@.id,
            id@ == primitives::ed25519_public(self@.seed),
    {
        self.identity.node_id()
    }

    /// The seed of the node's identity. To be kept like a private key.
    pub fn identity_seed(&self) -> (seed: [u8; 32])
        ensures
            seed@ == self@.seed,
    {
        self.identity.seed()
    }

    /// What the node tells others about itself.
    pub fn public_identity(&self) -> (public: PublicIdentity)
        ensures
            public@ == session::public_identity_of(self@.seed),
            public@.bound(),
            identity::x25519_secret_of(self@.seed).len() == 32,
    {
        PublicIdentity::new(&self.identity)
    }

    /// The messages this node has handled.
    pub fn replay(&self) -> (store: &ReplayStore)
        ensures
            store@ == self@.replay,
            store.limit() == self@.replay_limit,
    {
        &self.replay_store
    }

    /// The reliable messages of this node.
    pub fn deliveries(&self) -> (store: &DeliveryStore)
        ensures
            store@ == self@.delivery,
            store.limit() == self@.delivery_limit,
    {
        &self.delivery
    }

    /// The messages this node forwards.
    pub fn forwards(&self) -> (store: &ForwardStore)
        ensures
            store@ == self@.forward,
            store.limit() == self@.forward_limit,
    {
        &self.forward
    }

    /// The messages this node has received.
    pub fn inbox(&self) -> (store: &InboxStore)
        ensures
            store@ == self@.inbox,
            store.limit() == self@.inbox_limit,
            store.storage_key() == self@.inbox_key,
    {
        &self.inbox
    }

    /// All received messages, the oldest first.
    pub fn inbox_messages(&self) -> (messages: Vec<InboxMessage>)
        ensures
            table::views(messages@) == inbox_store::shown(
                timeline::by_time::<StoredMessage>(self@.inbox),
                self@.inbox_key,
            ),
    {
        self.inbox.all_messages()
    }

    /// The newest `limit` messages of one conversation, the newest first; with a time given, of
    /// those received before it.
    pub fn inbox_messages_for_peer(&self, peer: &NodeId, before_received_at: Option<u64>, limit: usize) -> (messages: Vec<InboxMessage>)
        ensures
            table::views(messages@) == inbox_store::shown(
                inbox_store::newest(
                    inbox_store::conversation(self@.inbox, *peer, before_received_at),
                    limit as nat,
                ),
                self@.inbox_key,
            ),
    {
        self.inbox.messages_for_peer(peer, before_received_at, limit)
    }
}

// ---------------------------------------------------------------------------------------------
// Sending
// ---------------------------------------------------------------------------------------------

/// The node after it has sent an envelope of its own. It knows its own message at once, so that
/// one that comes back is not sent round again; call frames are never recorded for good.
pub open spec fn having_sent(node: NodeData, e: EnvelopeData) -> NodeData {
    let met = node.having_met(e.sender, e.message_id);
    if e.message_type == MessageType::CallFrame {
        met
    } else {
        met.having_handled(e.sender, e.message_id, e.created_at, e.expires_at)
    }
}

/// The envelope in bytes to be sent.
pub open spec fn envelope_of(outgoing: Outgoing) -> EnvelopeData {
    wire::envelope_in(outgoing.bytes@)->0
}

/// The bytes hold an envelope, and are its encoding.
pub open spec fn holds_envelope(outgoing: Outgoing) -> bool {
    &&& wire::envelope_in(outgoing.bytes@) is Some
    &&& outgoing.bytes@ == wire::envelope_bytes(envelope_of(outgoing))
    &&& outgoing.bytes@.len() == codec::envelope_len(wire::envelope_parts(envelope_of(outgoing)))
    &&& outgoing.message_id == envelope_of(outgoing).message_id
}

/// The bytes are an envelope the node has built for a payload, which everyone it is meant for
/// can read.
pub open spec fn sends(
    outgoing: Outgoing,
    node: NodeData,
    destination: DestinationData,
    message_type: MessageType,
    payload: PayloadData,
    now_ms: u64,
) -> bool {
    &&& holds_envelope(outgoing)
    &&& built(envelope_of(outgoing), node, destination, message_type, payload, now_ms)
    &&& readable(envelope_of(outgoing), node, destination, payload)
}

/// The outcome of sending one payload.
pub open spec fn payload_sent(
    result: Result<Outgoing, NodeError>,
    before: NodeData,
    after: NodeData,
    destination: DestinationData,
    message_type: MessageType,
    payload: PayloadData,
    now_ms: u64,
) -> bool {
    match result {
        Ok(outgoing) => {
            &&& refusal(before, destination, payload) is None
            &&& sends(outgoing, before, destination, message_type, payload, now_ms)
            &&& after == having_sent(before, envelope_of(outgoing))
        },
        Err(error) => {
            &&& refusal(before, destination, payload) == Some(error)
            &&& after == before
        },
    }
}

/// A message in chunks on its way out.
pub struct OutgoingTransfer {
    destination: Destination,
    chunks: Vec<Chunk>,
    next: usize,
}

/// What is known of a message in chunks on its way out.
pub struct OutgoingData {
    pub destination: DestinationData,
    pub chunks: Seq<ChunkData>,
    /// How many have been sent.
    pub next: nat,
}

impl View for OutgoingTransfer {
    type V = OutgoingData;

    closed spec fn view(&self) -> OutgoingData {
        OutgoingData {
            destination: self.destination@,
            chunks: payload::chunk_views(self.chunks@),
            next: self.next as nat,
        }
    }
}

/// A transfer at its start, of the given content under some transfer id.
pub open spec fn starts(
    transfer: OutgoingData,
    destination: DestinationData,
    kind: ContentKind,
    file_name: Option<Seq<char>>,
    mime_type: Option<Seq<char>>,
    data: Seq<u8>,
) -> bool {
    &&& transfer.destination == destination
    &&& transfer.next == 0
    &&& transfer.chunks.len() >= 1
    &&& transfer.chunks == payload::chunks_of(
        transfer.chunks[0].transfer_id,
        kind,
        file_name,
        mime_type,
        data,
    )
}

/// One chunk to be sent, and where the transfer then stands.
#[derive(Debug)]
pub struct SentChunk {
    pub outgoing: Outgoing,
    pub progress: TransferProgress,
    /// A burst is over: wait a moment before the next chunk.
    pub pause: bool,
}

impl MeshNode {
    /// Builds an envelope for a payload, records it as this node's own, and hands out the bytes
    /// to be sent to every neighbour.
    pub fn send_one_payload(
        &mut self,
        destination: &Destination,
        message_type: MessageType,
        payload: &WirePayload,
        now_ms: u64,
    ) -> (result: Result<Outgoing, NodeError>)
        requires
            now_ms + MESSAGE_LIFETIME_MS <= u64::MAX,
        ensures
            payload_sent(
                result,
                old(self)@,
                final(self)@,
                destination@,
                message_type,
                payload@,
                now_ms,
            ),
            old(self)@.well_formed() ==> final(self)@.well_formed(),
    {
        let envelope = match self.build_envelope(destination, message_type, payload, now_ms) {
            Ok(envelope) => envelope,
            Err(error) => {
                return Err(error);
            },
        };
        self.record_own(&envelope);
        Ok(Outgoing { message_id: envelope.message_id, bytes: wire::encode_envelope(&envelope) })
    }

    /// Records an envelope as this node's own.
    fn record_own(&mut self, envelope: &Envelope)
        ensures
            final(self)@ == having_sent(old(self)@, envelope@),
            old(self)@.well_formed() ==> final(self)@.well_formed(),
    {
        let _ = self.flood_guard.check_and_insert(&envelope.sender, &envelope.message_id);
        if envelope.message_type != MessageType::CallFrame {
            self.replay_store.mark_seen(
                &envelope.sender,
                &envelope.message_id,
                envelope.created_at,
                envelope.expires_at,
            );
        }
    }

    /// Starts a text to one recipient, encrypted for it alone. No acknowledgement is awaited.
    pub fn send_text(&self, recipient: &PublicIdentity, text: &str) -> (transfer: OutgoingTransfer)
        ensures
            starts(
                transfer@,
                DestinationData::DirectV1(recipient.node_id, recipient@),
                ContentKind::Text,
                None,
                None,
                encode_utf8(text@),
            ),
    {
        let chunks = payload::split_into_chunks(ContentKind::Text, None, None, text.as_bytes());
        assert(payload::chunk_views(chunks@)[0] == chunks@[0]@);
        OutgoingTransfer { destination: Destination::DirectV1(recipient.clone()), chunks, next: 0 }
    }

    /// Starts a text to everyone on the channel.
    pub fn broadcast_text(&self, text: &str) -> (transfer: OutgoingTransfer)
        ensures
            starts(
                transfer@,
                DestinationData::Broadcast,
                ContentKind::Text,
                None,
                None,
                encode_utf8(text@),
            ),
    {
        let chunks = payload::split_into_chunks(ContentKind::Text, None, None, text.as_bytes());
        assert(payload::chunk_views(chunks@)[0] == chunks@[0]@);
        OutgoingTransfer { destination: Destination::Broadcast, chunks, next: 0 }
    }

    /// Starts a file to one recipient, encrypted for it alone.
    pub fn send_file(
        &self,
        recipient: &PublicIdentity,
        kind: ContentKind,
        file_name: String,
        mime_type: String,
        data: &[u8],
    ) -> (transfer: OutgoingTransfer)
        ensures
            starts(
                transfer@,
                DestinationData::DirectV1(recipient.node_id, recipient@),
                kind,
                Some(file_name@),
                Some(mime_type@),
                data@,
            ),
    {
        let chunks = payload::split_into_chunks(kind, Some(file_name), Some(mime_type), data);
        assert(payload::chunk_views(chunks@)[0] == chunks@[0]@);
        OutgoingTransfer { destination: Destination::DirectV1(recipient.clone()), chunks, next: 0 }
    }

    /// Sends the next chunk of a transfer; `None` once all have been sent. A chunk that is
    /// refused stays the next.
    pub fn send_next_chunk(&mut self, transfer: &mut OutgoingTransfer, now_ms: u64) -> (step: Option<Result<SentChunk, NodeError>>)
        requires
            now_ms + MESSAGE_LIFETIME_MS <= u64::MAX,
        ensures
            step is None <==> old(transfer)@.next >= old(transfer)@.chunks.len(),
            match step {
                None => final(self)@ == old(self)@ && final(transfer)@ == old(transfer)@,
                Some(Ok(sent)) => {
                    &&& payload_sent(
                        Ok(sent.outgoing),
                        old(self)@,
                        final(self)@,
                        old(transfer)@.destination,
                        MessageType::Chat,
                        PayloadData::Chunk(old(transfer)@.chunks[old(transfer)@.next as int]),
                        now_ms,
                    )
                    &&& final(transfer)@ == (OutgoingData {
                        next: old(transfer)@.next + 1,
                        ..old(transfer)@
                    })
                    &&& sent.progress == (TransferProgress {
                        transfer_id: old(transfer)@.chunks[0].transfer_id,
                        kind: old(transfer)@.chunks[0].kind,
                        done_chunks: (old(transfer)@.next + 1) as u32,
                        total_chunks: old(transfer)@.chunks.len() as u32,
                    })
                    &&& sent.pause == (old(transfer)@.next + 1 < old(transfer)@.chunks.len() && (
                    old(transfer)@.next + 1) % CHUNK_BURST_SIZE as nat == 0)
                },
                Some(Err(error)) => {
                    &&& refusal(
                        old(self)@,
                        old(transfer)@.destination,
                        PayloadData::Chunk(old(transfer)@.chunks[old(transfer)@.next as int]),
                    ) == Some(error)
                    &&& final(self)@ == old(self)@
                    &&& final(transfer)@ == old(transfer)@
                },
            },
            old(self)@.well_formed() ==> final(self)@.well_formed(),
    {
        if transfer.next >= transfer.chunks.len() {
            return None;
        }
        let i: usize = transfer.next;
        let total: usize = transfer.chunks.len();
        let ghost views = payload::chunk_views(transfer.chunks@);
        assert(views[i as int] == transfer.chunks@[i as int]@);
        assert(views[0] == transfer.chunks@[0]@);
        let chunk = transfer.chunks[i].clone();
        let sent = self.send_one_payload(
            &transfer.destination,
            MessageType::Chat,
            &WirePayload::Chunk(chunk),
            now_ms,
        );
        match sent {
            Ok(outgoing) => {
                transfer.next = i + 1;
                let progress = TransferProgress {
                    transfer_id: transfer.chunks[0].transfer_id,
                    kind: transfer.chunks[0].kind,
                    done_chunks: (i + 1) as u32,
                    total_chunks: total as u32,
                };
                let pause = i + 1 < total && (i + 1) % CHUNK_BURST_SIZE == 0;
                Some(Ok(SentChunk { outgoing, progress, pause }))
            },
            Err(error) => Some(Err(error)),
        }
    }

    /// Sends a text to one recipient and keeps it until the recipient acknowledges it or it
    /// expires. It is stored before it is first sent. Text that needs more than one chunk is
    /// refused; it is never sent with less than was asked for.
    pub fn send_reliable_text(&mut self, recipient: &PublicIdentity, text: &str, now_ms: u64) -> (result: Result<Outgoing, NodeError>)
        requires
            now_ms + MESSAGE_LIFETIME_MS <= u64::MAX,
        ensures
            match result {
                Ok(outgoing) => {
                    &&& encode_utf8(text@).len() <= CHUNK_SIZE
                    &&& exists|transfer_id: [u8; 16]|
                        sends(
                            outgoing,
                            old(self)@,
                            DestinationData::DirectV1(recipient.node_id, recipient@),
                            MessageType::Chat,
                            #[trigger] text_payload(transfer_id, encode_utf8(text@)),
                            now_ms,
                        )
                    &&& final(self)@ == having_queued(
                        having_sent(old(self)@, envelope_of(outgoing)),
                        envelope_of(outgoing),
                        recipient.node_id,
                        outgoing.bytes@,
                    )
                },
                Err(error) => {
                    &&& final(self)@ == old(self)@
                    &&& if encode_utf8(text@).len() > CHUNK_SIZE {
                        error == NodeError::TooLongForReliableDelivery(
                            payload::chunks_needed(encode_utf8(text@).len()) as usize,
                        )
                    } else {
                        exists|transfer_id: [u8; 16]|
                            refusal(
                                old(self)@,
                                DestinationData::DirectV1(recipient.node_id, recipient@),
                                #[trigger] text_payload(transfer_id, encode_utf8(text@)),
                            ) == Some(error)
                    }
                },
            },
            old(self)@.well_formed() ==> final(self)@.well_formed(),
    {
        let payload = match single_chunk_text(text) {
            Ok(payload) => payload,
            Err(chunks) => {
                return Err(NodeError::TooLongForReliableDelivery(chunks));
            },
        };
        let ghost data = encode_utf8(text@);
        let ghost transfer_id = choose|transfer_id: [u8; 16]|
            payload@ == #[trigger] text_payload(transfer_id, data);
        let ghost to = DestinationData::DirectV1(recipient.node_id, recipient@);
        let destination = Destination::DirectV1(recipient.clone());
        assert(destination@ == to);
        let envelope = match self.build_envelope(&destination, MessageType::Chat, &payload, now_ms) {
            Ok(envelope) => envelope,
            Err(error) => {
                assert(refusal(self@, to, text_payload(transfer_id, data)) == Some(error));
                return Err(error);
            },
        };
        let encoded = wire::encode_envelope(&envelope);
        self.record_own(&envelope);
        self.delivery.enqueue(
            &envelope.message_id,
            &recipient.node_id,
            encoded.as_slice(),
            envelope.created_at,
            envelope.expires_at,
        );
        let outgoing = Outgoing { message_id: envelope.message_id, bytes: encoded };
        assert(envelope_of(outgoing) == envelope@);
        assert(sends(
            outgoing,
            old(self)@,
            to,
            MessageType::Chat,
            text_payload(transfer_id, data),
            now_ms,
        ));
        Ok(outgoing)
    }

    /// Records that a reliable message has been sent once more, whatever came of it.
    pub fn record_delivery_attempt(&mut self, message_id: &[u8; 16], now_ms: u64)
        ensures
            exists|random: u64|
                final(self)@ == (NodeData {
                    delivery: #[trigger] delivery_store::attempted(
                        old(self)@.delivery,
                        *message_id,
                        now_ms,
                        random,
                    ),
                    ..old(self)@
                }),
            old(self)@.well_formed() ==> final(self)@.well_formed(),
    {
        self.delivery.record_attempt(message_id, now_ms);
    }

    /// Gives up reliable messages whose time is over and hands out those to be sent again, byte
    /// for byte. To be called every second or two.
    pub fn retry_due_deliveries(&mut self, now_ms: u64) -> (messages: Vec<DueMessage>)
        ensures
            final(self)@ == (NodeData {
                delivery: delivery_store::expired(old(self)@.delivery, now_ms),
                ..old(self)@
            }),
            table::views(messages@) == delivery_store::due(
                delivery_store::expired(old(self)@.delivery, now_ms),
                now_ms,
            ),
            old(self)@.well_formed() ==> final(self)@.well_formed(),
    {
        self.delivery.expire_overdue(now_ms);
        self.delivery.due_for_attempt(now_ms)
    }

    /// Acknowledges a message to its sender.
    pub fn send_delivery_ack(&mut self, recipient: &PublicIdentity, message_id: [u8; 16], now_ms: u64) -> (result: Result<Outgoing, NodeError>)
        requires
            now_ms + MESSAGE_LIFETIME_MS <= u64::MAX,
        ensures
            payload_sent(
                result,
                old(self)@,
                final(self)@,
                DestinationData::DirectV1(recipient.node_id, recipient@),
                MessageType::DeliveryAck,
                PayloadData::DeliveryAck(DeliveryAck { acked_message_id: message_id }),
                now_ms,
            ),
            old(self)@.well_formed() ==> final(self)@.well_formed(),
    {
        let destination = Destination::DirectV1(recipient.clone());
        let payload = WirePayload::DeliveryAck(DeliveryAck { acked_message_id: message_id });
        self.send_one_payload(&destination, MessageType::DeliveryAck, &payload, now_ms)
    }

    /// Calls a node.
    pub fn call_invite(&mut self, target: NodeId, call_id: [u8; 16], video: bool, now_ms: u64) -> (result: Result<Outgoing, NodeError>)
        requires
            now_ms + MESSAGE_LIFETIME_MS <= u64::MAX,
        ensures
            call_sent(
                result,
                old(self)@,
                final(self)@,
                target,
                CallMessageData::Signal(CallSignal::Invite { call_id, video }),
                now_ms,
            ),
            old(self)@.well_formed() ==> final(self)@.well_formed(),
    {
        self.send_call(target, CallMessage::Signal(CallSignal::Invite { call_id, video }), now_ms)
    }

    /// Picks up.
    pub fn call_accept(&mut self, target: NodeId, call_id: [u8; 16], now_ms: u64) -> (result: Result<Outgoing, NodeError>)
        requires
            now_ms + MESSAGE_LIFETIME_MS <= u64::MAX,
        ensures
            call_sent(
                result,
                old(self)@,
                final(self)@,
                target,
                CallMessageData::Signal(CallSignal::Accept { call_id }),
                now_ms,
            ),
            old(self)@.well_formed() ==> final(self)@.well_formed(),
    {
        self.send_call(target, CallMessage::Signal(CallSignal::Accept { call_id }), now_ms)
    }

    /// Declines.
    pub fn call_reject(&mut self, target: NodeId, call_id: [u8; 16], now_ms: u64) -> (result: Result<Outgoing, NodeError>)
        requires
            now_ms + MESSAGE_LIFETIME_MS <= u64::MAX,
        ensures
            call_sent(
                result,
                old(self)@,
                final(self)@,
                target,
                CallMessageData::Signal(CallSignal::Reject { call_id }),
                now_ms,
            ),
            old(self)@.well_formed() ==> final(self)@.well_formed(),
    {
        self.send_call(target, CallMessage::Signal(CallSignal::Reject { call_id }), now_ms)
    }

    /// Hangs up, or takes an invitation back.
    pub fn call_end(&mut self, target: NodeId, call_id: [u8; 16], now_ms: u64) -> (result: Result<Outgoing, NodeError>)
        requires
            now_ms + MESSAGE_LIFETIME_MS <= u64::MAX,
        ensures
            call_sent(
                result,
                old(self)@,
                final(self)@,
                target,
                CallMessageData::Signal(CallSignal::End { call_id }),
                now_ms,
            ),
            old(self)@.well_formed() ==> final(self)@.well_formed(),
    {
        self.send_call(target, CallMessage::Signal(CallSignal::End { call_id }), now_ms)
    }

    /// Sends one frame of live audio or video.
    pub fn send_call_frame(
        &mut self,
        target: NodeId,
        call_id: [u8; 16],
        media: MediaKind,
        sequence: u32,
        data: Vec<u8>,
        now_ms: u64,
    ) -> (result: Result<Outgoing, NodeError>)
        requires
            now_ms + MESSAGE_LIFETIME_MS <= u64::MAX,
        ensures
            call_sent(
                result,
                old(self)@,
                final(self)@,
                target,
                CallMessageData::Frame(CallFrame { call_id, media, sequence, data }@),
                now_ms,
            ),
            old(self)@.well_formed() ==> final(self)@.well_formed(),
    {
        self.send_call(
            target,
            CallMessage::Frame(CallFrame { call_id, media, sequence, data }),
            now_ms,
        )
    }

    /// Sends a call message to one node under the channel key.
    pub fn send_call(&mut self, target: NodeId, message: CallMessage, now_ms: u64) -> (result: Result<Outgoing, NodeError>)
        requires
            now_ms + MESSAGE_LIFETIME_MS <= u64::MAX,
        ensures
            call_sent(result, old(self)@, final(self)@, target, message@, now_ms),
            old(self)@.well_formed() ==> final(self)@.well_formed(),
    {
        let message_type = match &message {
            CallMessage::Signal(_) => MessageType::CallSignal,
            CallMessage::Frame(_) => MessageType::CallFrame,
        };
        self.send_one_payload(
            &Destination::ChannelDirect(target),
            message_type,
            &WirePayload::Call(message),
            now_ms,
        )
    }
}

/// The one chunk of a short text.
pub open spec fn text_payload(transfer_id: [u8; 16], data: Seq<u8>) -> PayloadData {
    PayloadData::Chunk(payload::chunks_of(transfer_id, ContentKind::Text, None, None, data)[0])
}

/// A text in one chunk under a fresh random transfer id, or the number of chunks it needs.
fn single_chunk_text(text: &str) -> (result: Result<WirePayload, usize>)
    ensures
        match result {
            Ok(payload) => {
                &&& encode_utf8(text@).len() <= CHUNK_SIZE
                &&& exists|transfer_id: [u8; 16]|
                    payload@ == #[trigger] text_payload(transfer_id, encode_utf8(text@))
            },
            Err(chunks) => {
                &&& encode_utf8(text@).len() > CHUNK_SIZE
                &&& chunks == payload::chunks_needed(encode_utf8(text@).len())
            },
        },
{
    let ghost data = encode_utf8(text@);
    let mut chunks = payload::split_into_chunks(ContentKind::Text, None, None, text.as_bytes());
    let ghost views = payload::chunk_views(chunks@);
    assert(views.len() == chunks@.len());
    assert(views.len() == payload::chunks_needed(data.len()));
    if chunks.len() != 1 {
        return Err(chunks.len());
    }
    assert(views[0] == chunks@[0]@);
    let chunk = chunks.remove(0);
    let payload = WirePayload::Chunk(chunk);
    assert(payload@ == text_payload(chunk.transfer_id, data));
    Ok(payload)
}

/// The node after a reliable message has been queued.
pub open spec fn having_queued(node: NodeData, e: EnvelopeData, recipient: NodeId, encoded: Seq<u8>) -> NodeData {
    NodeData {
        delivery: delivery_store::enqueued(
            node.delivery,
            OutboundData::queued(
                e.message_id,
                recipient,
                encoded,
                e.created_at,
                e.expires_at,
            ),
            node.delivery_limit,
        ),
        ..node
    }
}

/// The outcome of sending a call message.
pub open spec fn call_sent(
    result: Result<Outgoing, NodeError>,
    before: NodeData,
    after: NodeData,
    target: NodeId,
    message: CallMessageData,
    now_ms: u64,
) -> bool {
    payload_sent(
        result,
        before,
        after,
        DestinationData::ChannelDirect(target),
        if message is Frame {
            MessageType::CallFrame
        } else {
            MessageType::CallSignal
        },
        PayloadData::Call(message),
        now_ms,
    )
}

/// Whether a packet counts as sent, given what became of it at each neighbour: at least one took
/// it, or there was none to take it.
pub fn flood_succeeded(outcomes: &Vec<bool>) -> (sent: bool)
    ensures
        sent <==> outcomes@.len() == 0 || outcomes@.contains(true),
{
    if outcomes.len() == 0 {
        return true;
    }
    let mut i: usize = 0;
    while i < outcomes.len()
        invariant
            i <= outcomes@.len(),
            forall|j: int| 0 <= j < i ==> !outcomes@[j],
        decreases outcomes@.len() - i,
    {
        if outcomes[i] {
            assert(outcomes@[i as int] == true);
            return true;
        }
        i += 1;
    }
    assert(!outcomes@.contains(true));
    false
}

// ---------------------------------------------------------------------------------------------
// Receiving
// ---------------------------------------------------------------------------------------------

/// The identity to acknowledge to again, where an envelope is a direct chat message to `id`; only
/// the header is checked for it, nothing is decrypted.
pub open spec fn acknowledged_again(e: EnvelopeData, id: NodeId) -> Option<PublicIdentityData> {
    if e.message_type == MessageType::Chat && e.recipient == Some(id) && e.encryption_mode
        == EncryptionMode::DirectV1 {
        match wire::body_in(e.ciphertext) {
            Some(body) => {
                let sender = body.header.claimed(e.sender@);
                if sender.bound() {
                    Some(sender)
                } else {
                    None
                }
            },
            None => None,
        }
    } else {
        None
    }
}

/// An envelope names a recipient, and it is not `id`.
pub open spec fn for_someone_else(e: EnvelopeData, id: NodeId) -> bool {
    e.recipient is Some && e.recipient->0 != id
}

/// How an envelope is handed on by `id`: not at all once its hops are used up; with a record of
/// every neighbour where it is for someone else and no call frame; once, otherwise.
pub open spec fn handed_on(e: EnvelopeData, id: NodeId) -> RelayData {
    if e.out_of_hops() {
        RelayData::Nothing
    } else if e.message_type != MessageType::CallFrame && for_someone_else(e, id) {
        RelayData::Track {
            sender: e.sender,
            message_id: e.message_id,
            expires_at: e.expires_at,
            bytes: wire::envelope_bytes(e.relayed()),
        }
    } else {
        RelayData::Flood {
            message_id: e.message_id,
            bytes: wire::envelope_bytes(e.relayed()),
        }
    }
}

/// What is handed on is the envelope one hop further, and reads as that again.
pub open spec fn hands_on_a_copy(relay: RelayData, e: EnvelopeData) -> bool {
    match relay {
        RelayData::Nothing => true,
        RelayData::Flood { message_id, bytes } => wire::envelope_in(bytes) == Some(e.relayed()),
        RelayData::Track { sender, message_id, expires_at, bytes } => wire::envelope_in(bytes)
            == Some(e.relayed()),
    }
}

/// What a payload in an envelope for this node does to the node and means for it.
pub open spec fn taken_in(
    node: NodeData,
    e: EnvelopeData,
    payload: PayloadData,
    sender_identity: Option<PublicIdentityData>,
    uptime_ms: u64,
) -> (NodeData, LocalData) {
    match payload {
        PayloadData::Chunk(chunk) => {
            let (transfers, outcome) = reassembly::accepted(node.transfers, chunk, uptime_ms);
            (
                NodeData { transfers, ..node },
                match outcome {
                    AcceptedData::Progress(progress) => LocalData::Event(
                        EventData::Progress(e.sender, progress),
                    ),
                    AcceptedData::Complete(content) => LocalData::Store(
                        PendingData {
                            sender: e.sender,
                            sender_identity,
                            message_id: e.message_id,
                            expires_at: e.expires_at,
                            content,
                        },
                    ),
                },
            )
        },
        PayloadData::Call(message) => (
            node,
            LocalData::Event(EventData::Call(e.sender, message)),
        ),
        PayloadData::DeliveryAck(ack) => (
            NodeData {
                delivery: delivery_store::acknowledged(
                    node.delivery,
                    ack.acked_message_id,
                    e.sender,
                ),
                ..node
            },
            LocalData::Nothing,
        ),
    }
}

/// What a fresh, authentic envelope does to a node, and what is to be done about it.
pub open spec fn processed(
    node: NodeData,
    e: EnvelopeData,
    now_ms: u64,
    uptime_ms: u64,
) -> (NodeData, IncomingData) {
    if e.expired_at(now_ms) {
        (node, ignored())
    } else {
        let relay = handed_on(e, node.id);
        if for_someone_else(e, node.id) {
            (node, IncomingData { relay, local: LocalData::Nothing })
        } else {
            match read_by(node.id, node.seed, node.channel_key, e) {
                Some((payload, sender_identity)) => {
                    let handled = if e.message_type == MessageType::CallFrame || e.message_type
                        == MessageType::Chat {
                        node
                    } else {
                        node.having_handled(e.sender, e.message_id, now_ms, e.expires_at)
                    };
                    let (after, local) = taken_in(
                        handled,
                        e,
                        payload,
                        sender_identity,
                        uptime_ms,
                    );
                    (after, IncomingData { relay, local })
                },
                None => (node, IncomingData { relay, local: LocalData::Nothing }),
            }
        }
    }
}

/// What a packet does to a node, and what is to be done about it; `None` where the packet is no
/// envelope at all. Nothing is recorded before the signature has been checked.
pub open spec fn received(
    node: NodeData,
    raw: Seq<u8>,
    now_ms: u64,
    uptime_ms: u64,
) -> Option<(NodeData, IncomingData)> {
    if raw.len() > MAX_ENVELOPE_BYTES {
        Some((node, ignored()))
    } else {
        match wire::envelope_in(raw) {
            None => None,
            Some(e) => if !authentic(e) || e.protocol_version != PROTOCOL_VERSION {
                Some((node, ignored()))
            } else if e.message_type == MessageType::CallFrame {
                if node.flood.contains((e.sender, e.message_id)) {
                    Some((node, ignored()))
                } else {
                    Some(processed(node.having_met(e.sender, e.message_id), e, now_ms, uptime_ms))
                }
            } else if replay_store::has_seen(node.replay, e.sender, e.message_id) {
                Some(
                    (
                        node,
                        IncomingData {
                            relay: RelayData::Nothing,
                            local: match acknowledged_again(e, node.id) {
                                Some(to) => LocalData::Acknowledge(to, e.message_id),
                                None => LocalData::Nothing,
                            },
                        },
                    ),
                )
            } else {
                Some(processed(node, e, now_ms, uptime_ms))
            },
        }
    }
}

/// What storing content, or failing to, does to a node, and what follows: an acknowledgement and
/// news if it has been stored just now, an acknowledgement alone if it was there, nothing at all
/// if it could not be stored, so that the sender tries again.
pub open spec fn settled(
    node: NodeData,
    pending: PendingData,
    outcome: Result<InsertOutcome, InboxError>,
    now_ms: u64,
) -> (NodeData, SettledData) {
    let acknowledge = match pending.sender_identity {
        Some(to) => Some((to, pending.message_id)),
        None => None,
    };
    match outcome {
        Ok(InsertOutcome::Inserted) => (
            node.having_handled(
                pending.sender,
                pending.message_id,
                now_ms,
                pending.expires_at,
            ),
            SettledData {
                acknowledge,
                event: Some(
                    EventData::Content(
                        DeliveredData {
                            sender: pending.sender,
                            sender_identity: pending.sender_identity,
                            message_id: pending.message_id,
                            content: pending.content,
                        },
                    ),
                ),
            },
        ),
        Ok(InsertOutcome::AlreadyPresent) => (node, SettledData { acknowledge, event: None }),
        Err(_) => (node, SettledData { acknowledge: None, event: None }),
    }
}

fn nothing() -> (incoming: Incoming)
    ensures
        incoming@ == ignored(),
{
    Incoming { relay: Relay::Nothing, local: Local::Nothing }
}

impl MeshNode {
    /// Takes in a packet and says what is to be done about it. Packets that are oversized,
    /// forged, of an unknown version, expired or already handled are dropped; bytes that are no
    /// envelope are an error. No input makes it fail otherwise.
    ///
    /// `now_ms` is the time of day, by which messages expire. `uptime_ms` is the time on a clock
    /// that is never set, by which unfinished transfers do.
    pub fn handle_incoming(&mut self, raw: &[u8], now_ms: u64, uptime_ms: u64) -> (result: Result<Incoming, NodeError>)
        ensures
            match result {
                Ok(incoming) => received(old(self)@, raw@, now_ms, uptime_ms) == Some(
                    (final(self)@, incoming@),
                ),
                Err(error) => {
                    &&& received(old(self)@, raw@, now_ms, uptime_ms) is None
                    &&& error == NodeError::MalformedPacket
                    &&& final(self)@ == old(self)@
                },
            },
            result matches Ok(incoming) ==> incoming@.relay is Nothing || hands_on_a_copy(
                incoming@.relay,
                wire::envelope_in(raw@)->0,
            ),
            old(self)@.well_formed() ==> final(self)@.well_formed(),
    {
        if raw.len() > MAX_ENVELOPE_BYTES {
            return Ok(nothing());
        }
        let envelope = match wire::decode_envelope(raw) {
            Some(envelope) => envelope,
            None => {
                return Err(NodeError::MalformedPacket);
            },
        };
        let signature: [u8; 64] = match bytes::to_array(envelope.signature.as_slice()) {
            Some(signature) => signature,
            None => {
                return Ok(nothing());
            },
        };
        let signed = envelope.signed_payload();
        if !identity::verify(&envelope.sender, signed.as_slice(), &signature) {
            return Ok(nothing());
        }
        if !envelope.is_supported_version() {
            return Ok(nothing());
        }
        if envelope.message_type == MessageType::CallFrame {
            if !self.flood_guard.check_and_insert(&envelope.sender, &envelope.message_id) {
                return Ok(nothing());
            }
        } else if self.replay_store.contains(&envelope.sender, &envelope.message_id) {
            let local = match self.duplicate_sender(&envelope) {
                Some(to) => Local::Acknowledge(to, envelope.message_id),
                None => Local::Nothing,
            };
            return Ok(Incoming { relay: Relay::Nothing, local });
        }
        Ok(self.process(&envelope, now_ms, uptime_ms))
    }

    /// The sender of a direct chat message to this node, from its header alone.
    fn duplicate_sender(&self, envelope: &Envelope) -> (sender: Option<PublicIdentity>)
        ensures
            identity_view(sender) == acknowledged_again(envelope@, self@.id),
    {
        if envelope.message_type != MessageType::Chat {
            return None;
        }
        let to_us = match &envelope.recipient {
            Some(recipient) => bytes::same_array(recipient, &self.identity.node_id()),
            None => false,
        };
        if !to_us {
            return None;
        }
        try_extract_direct_v1_sender(envelope)
    }

    /// Processes a fresh, authentic envelope.
    fn process(&mut self, envelope: &Envelope, now_ms: u64, uptime_ms: u64) -> (incoming: Incoming)
        ensures
            (final(self)@, incoming@) == processed(old(self)@, envelope@, now_ms, uptime_ms),
            hands_on_a_copy(incoming@.relay, envelope@),
            old(self)@.well_formed() ==> final(self)@.well_formed(),
    {
        if envelope.is_expired(now_ms) {
            return nothing();
        }
        let id = self.identity.node_id();
        let elsewhere = match &envelope.recipient {
            Some(recipient) => !bytes::same_array(recipient, &id),
            None => false,
        };
        let relay = hand_on(envelope, elsewhere, &id);
        if elsewhere {
            return Incoming { relay, local: Local::Nothing };
        }
        match self.decrypt_payload(envelope) {
            Some((payload, sender_identity)) => {
                if envelope.message_type != MessageType::CallFrame && envelope.message_type
                    != MessageType::Chat {
                    self.replay_store.mark_seen(
                        &envelope.sender,
                        &envelope.message_id,
                        now_ms,
                        envelope.expires_at,
                    );
                }
                let local = self.take_in(envelope, payload, sender_identity, uptime_ms);
                Incoming { relay, local }
            },
            None => Incoming { relay, local: Local::Nothing },
        }
    }

    /// Takes in a payload addressed to this node.
    fn take_in(
        &mut self,
        envelope: &Envelope,
        payload: WirePayload,
        sender_identity: Option<PublicIdentity>,
        uptime_ms: u64,
    ) -> (local: Local)
        ensures
            (final(self)@, local@) == taken_in(
                old(self)@,
                envelope@,
                payload@,
                identity_view(sender_identity),
                uptime_ms,
            ),
            old(self)@.well_formed() ==> final(self)@.well_formed(),
    {
        match payload {
            WirePayload::Chunk(chunk) => match self.reassembler.accept_chunk(chunk, uptime_ms) {
                Accepted::Progress(progress) => Local::Event(
                    IncomingEvent::Progress(envelope.sender, progress),
                ),
                Accepted::Complete(content) => Local::Store(
                    PendingContent {
                        sender: envelope.sender,
                        sender_identity,
                        message_id: envelope.message_id,
                        expires_at: envelope.expires_at,
                        content,
                    },
                ),
            },
            WirePayload::Call(message) => Local::Event(
                IncomingEvent::Call(envelope.sender, message),
            ),
            WirePayload::DeliveryAck(ack) => {
                let _ = self.delivery.acknowledge_from(&ack.acked_message_id, &envelope.sender);
                Local::Nothing
            },
        }
    }

    /// Follows up on content once it has been stored, or could not be.
    pub fn settle_content(
        &mut self,
        pending: PendingContent,
        outcome: Result<InsertOutcome, InboxError>,
        now_ms: u64,
    ) -> (result: Settled)
        ensures
            (final(self)@, result@) == settled(old(self)@, pending@, outcome, now_ms),
            old(self)@.well_formed() ==> final(self)@.well_formed(),
    {
        match outcome {
            Ok(InsertOutcome::Inserted) => {
                self.replay_store.mark_seen(
                    &pending.sender,
                    &pending.message_id,
                    now_ms,
                    pending.expires_at,
                );
                let acknowledge = match &pending.sender_identity {
                    Some(to) => Some((to.clone(), pending.message_id)),
                    None => None,
                };
                let delivered = DeliveredContent {
                    sender: pending.sender,
                    sender_identity: pending.sender_identity,
                    message_id: pending.message_id,
                    content: pending.content,
                };
                Settled { acknowledge, event: Some(IncomingEvent::Content(delivered)) }
            },
            Ok(InsertOutcome::AlreadyPresent) => {
                let acknowledge = match pending.sender_identity {
                    Some(to) => Some((to, pending.message_id)),
                    None => None,
                };
                Settled { acknowledge, event: None }
            },
            Err(_) => Settled { acknowledge: None, event: None },
        }
    }

    /// Adds a sealed row to the inbox, once the disk has taken it.
    pub fn insert_stored(&mut self, row: StoredMessage) -> (outcome: InsertOutcome)
        ensures
            outcome == if inbox_store::has_message(
                old(self)@.inbox,
                row@.sender,
                row@.message_id,
            ) {
                InsertOutcome::AlreadyPresent
            } else {
                InsertOutcome::Inserted
            },
            final(self)@ == (NodeData {
                inbox: table::evicted::<StoredMessage>(
                    inbox_store::with_row(old(self)@.inbox, row@),
                    old(self)@.inbox_limit,
                ),
                ..old(self)@
            }),
            old(self)@.well_formed() ==> final(self)@.well_formed(),
    {
        self.inbox.insert_row(row)
    }

    /// Stores content in the inbox, in memory alone, and follows up on it.
    pub fn store_content(&mut self, pending: PendingContent, now_ms: u64) -> (result: Settled)
        ensures
            exists|inbox: Seq<StoredData>, outcome: Result<InsertOutcome, InboxError>|
                {
                    &&& #[trigger] content_stored(old(self)@, inbox, outcome, pending@, now_ms)
                    &&& (final(self)@, result@) == settled(
                        NodeData { inbox, ..old(self)@ },
                        pending@,
                        outcome,
                        now_ms,
                    )
                },
            old(self)@.well_formed() ==> final(self)@.well_formed(),
    {
        let outcome = self.inbox.insert_if_absent(
            &pending.sender,
            &pending.message_id,
            now_ms,
            &pending.content,
        );
        proof {
            let node = old(self)@;
            let data = pending@;
            match outcome {
                Ok(InsertOutcome::Inserted) => {
                    let row = choose|row: StoredData|
                        {
                            &&& #[trigger] row.records(
                                node.inbox_key,
                                data.sender,
                                data.message_id,
                                now_ms,
                                data.content,
                            )
                            &&& self@.inbox == table::evicted::<StoredMessage>(
                                node.inbox.push(row),
                                node.inbox_limit,
                            )
                        };
                    assert(row.records(
                        node.inbox_key,
                        data.sender,
                        data.message_id,
                        now_ms,
                        data.content,
                    ));
                },
                Ok(InsertOutcome::AlreadyPresent) => {},
                Err(_) => {},
            }
            assert(content_stored(node, self@.inbox, outcome, data, now_ms));
        }
        self.settle_content(pending, outcome, now_ms)
    }
}

/// The inbox after content has been handed to it, and what became of the content.
pub open spec fn content_stored(
    node: NodeData,
    inbox: Seq<StoredData>,
    outcome: Result<InsertOutcome, InboxError>,
    pending: PendingData,
    now_ms: u64,
) -> bool {
    if wire::content_len(pending.content) > primitives::MAX_PLAINTEXT_LEN {
        outcome == Err::<InsertOutcome, InboxError>(InboxError::TooLarge) && inbox == node.inbox
    } else if inbox_store::has_message(node.inbox, pending.sender, pending.message_id) {
        &&& outcome == Ok::<InsertOutcome, InboxError>(InsertOutcome::AlreadyPresent)
        &&& inbox == table::evicted::<StoredMessage>(node.inbox, node.inbox_limit)
    } else {
        &&& outcome == Ok::<InsertOutcome, InboxError>(InsertOutcome::Inserted)
        &&& exists|row: StoredData|
            {
                &&& #[trigger] row.records(
                    node.inbox_key,
                    pending.sender,
                    pending.message_id,
                    now_ms,
                    pending.content,
                )
                &&& inbox == table::evicted::<StoredMessage>(
                    node.inbox.push(row),
                    node.inbox_limit,
                )
            }
    }
}

/// The sender of a direct envelope, from its header alone.
fn try_extract_direct_v1_sender(envelope: &Envelope) -> (sender: Option<PublicIdentity>)
    ensures
        identity_view(sender) == if envelope@.encryption_mode == EncryptionMode::DirectV1 {
            match wire::body_in(envelope@.ciphertext) {
                Some(body) => if body.header.claimed(envelope@.sender@).bound() {
                    Some(body.header.claimed(envelope@.sender@))
                } else {
                    None
                },
                None => None,
            }
        } else {
            None
        },
{
    if envelope.encryption_mode != EncryptionMode::DirectV1 {
        return None;
    }
    match wire::decode_body(envelope.ciphertext.as_slice()) {
        Some(body) => match body.header.verify_sender(envelope.sender) {
            Some(verified) => Some(verified.public_identity().clone()),
            None => None,
        },
        None => None,
    }
}

/// How an envelope is handed on.
fn hand_on(envelope: &Envelope, elsewhere: bool, id: &NodeId) -> (relay: Relay)
    requires
        elsewhere == for_someone_else(envelope@, *id),
    ensures
        relay@ == handed_on(envelope@, *id),
        hands_on_a_copy(relay@, envelope@),
{
    if envelope.hop_budget_exhausted() {
        return Relay::Nothing;
    }
    let mut copy = envelope.clone();
    copy.hops_used = copy.hops_used + 1;
    assert(copy@ == envelope@.relayed());
    let encoded = wire::encode_envelope(&copy);
    if envelope.message_type != MessageType::CallFrame && elsewhere {
        Relay::Track(
            ForwardTask {
                sender: envelope.sender,
                message_id: envelope.message_id,
                expires_at: envelope.expires_at,
                bytes: encoded,
            },
        )
    } else {
        Relay::Flood(Outgoing { message_id: envelope.message_id, bytes: encoded })
    }
}

// ---------------------------------------------------------------------------------------------
// Forwarding
// ---------------------------------------------------------------------------------------------

/// The ids in order of their first occurrence, each once.
pub open spec fn first_occurrences(ids: Seq<[u8; 16]>) -> Seq<[u8; 16]>
    decreases ids.len(),
{
    if ids.len() == 0 {
        Seq::empty()
    } else {
        let head = first_occurrences(ids.drop_last());
        if head.contains(ids.last()) {
            head
        } else {
            head.push(ids.last())
        }
    }
}

/// The node after it has looked at one message: handled, if no neighbour awaits it any more.
pub open spec fn having_checked(node: NodeData, message_id: [u8; 16], now_ms: u64) -> NodeData {
    if forward_store::resolved(node.forward, message_id) {
        match forward_store::origin(node.forward, message_id) {
            Some((sender, expires_at)) => node.having_handled(
                sender,
                message_id,
                now_ms,
                expires_at,
            ),
            None => node,
        }
    } else {
        node
    }
}

/// The node after it has looked at several messages in turn.
pub open spec fn having_checked_all(node: NodeData, ids: Seq<[u8; 16]>, now_ms: u64) -> NodeData
    decreases ids.len(),
{
    if ids.len() == 0 {
        node
    } else {
        having_checked(having_checked_all(node, ids.drop_last(), now_ms), ids.last(), now_ms)
    }
}

impl MeshNode {
    /// Starts forwarding a packet to the neighbours that are there now: each gets a record,
    /// unless it has one from an earlier time the packet came by. Without neighbours there is
    /// nothing to record.
    pub fn relay_forward(&mut self, task: &ForwardTask, peers: &[String], now_ms: u64)
        ensures
            final(self)@ == if peers@.len() == 0 {
                old(self)@
            } else {
                NodeData {
                    forward: table::evicted::<ForwardAttempt>(
                        forward_store::with_peers(
                            old(self)@.forward,
                            task.message_id,
                            task.sender,
                            table::views(peers@),
                            task.bytes@,
                            now_ms,
                            task.expires_at,
                        ),
                        old(self)@.forward_limit,
                    ),
                    ..old(self)@
                }
            },
            old(self)@.well_formed() ==> final(self)@.well_formed(),
    {
        if peers.len() > 0 {
            self.forward.enqueue_pending(
                &task.message_id,
                &task.sender,
                peers,
                task.bytes.as_slice(),
                now_ms,
                task.expires_at,
            );
        }
    }

    /// Whether a neighbour still awaits a message. One that has it is not sent it again.
    pub fn awaits_forward(&self, message_id: &[u8; 16], peer: &str) -> (awaits: bool)
        ensures
            awaits == (forward_store::state_in(self@.forward, *message_id, peer@) == Some(
                ForwardState::Pending,
            )),
    {
        match self.forward.state_of(message_id, peer) {
            Some(ForwardState::Pending) => true,
            _ => false,
        }
    }

    /// Records what became of a message at one neighbour.
    pub fn record_forward_result(&mut self, message_id: &[u8; 16], peer: &str, succeeded: bool, now_ms: u64)
        ensures
            exists|random: u64|
                final(self)@ == (NodeData {
                    forward: #[trigger] forward_store::attempted(
                        old(self)@.forward,
                        *message_id,
                        peer@,
                        succeeded,
                        now_ms,
                        random,
                    ),
                    ..old(self)@
                }),
            old(self)@.well_formed() ==> final(self)@.well_formed(),
    {
        self.forward.record_attempt_result(message_id, peer, succeeded, now_ms);
    }

    /// Ends forwarding a packet for now. It counts as handled if there was no neighbour, or none
    /// awaits it any more; otherwise it stays open to be tried again, by this node or when it
    /// comes by once more.
    pub fn finish_relay(&mut self, task: &ForwardTask, had_peers: bool, now_ms: u64) -> (done: bool)
        ensures
            done == (!had_peers || forward_store::resolved(old(self)@.forward, task.message_id)),
            final(self)@ == if done {
                old(self)@.having_handled(
                    task.sender,
                    task.message_id,
                    now_ms,
                    task.expires_at,
                )
            } else {
                old(self)@
            },
            old(self)@.well_formed() ==> final(self)@.well_formed(),
    {
        let done = !had_peers || self.forward.all_peers_resolved(&task.message_id);
        if done {
            self.replay_store.mark_seen(&task.sender, &task.message_id, now_ms, task.expires_at);
        }
        done
    }

    /// Gives up on messages whose time is over and hands out what is to be forwarded again, byte
    /// for byte. To be called every second or two.
    pub fn retry_pending_forwards(&mut self, now_ms: u64) -> (items: Vec<DueForward>)
        ensures
            final(self)@ == (NodeData {
                forward: forward_store::expired(old(self)@.forward, now_ms),
                ..old(self)@
            }),
            table::views(items@) == forward_store::due(
                forward_store::expired(old(self)@.forward, now_ms),
                now_ms,
            ),
            old(self)@.well_formed() ==> final(self)@.well_formed(),
    {
        self.forward.expire_overdue(now_ms);
        self.forward.due_for_attempt(now_ms)
    }

    /// Ends a round of forwarding again: of the messages tried, those no neighbour awaits any
    /// more count as handled.
    pub fn finish_forward_retries(&mut self, tried: &[[u8; 16]], now_ms: u64)
        ensures
            final(self)@ == having_checked_all(
                old(self)@,
                first_occurrences(tried@),
                now_ms,
            ),
            old(self)@.well_formed() ==> final(self)@.well_formed(),
    {
        let touched = distinct_ids(tried);
        let mut i: usize = 0;
        assert(touched@.take(0) =~= Seq::empty());
        while i < touched.len()
            invariant
                i <= touched@.len(),
                touched@ == first_occurrences(tried@),
                self@ == having_checked_all(old(self)@, touched@.take(i as int), now_ms),
                old(self)@.well_formed() ==> self@.well_formed(),
            decreases touched@.len() - i,
        {
            let message_id = touched[i];
            assert(touched@.take(i + 1).drop_last() =~= touched@.take(i as int));
            if self.forward.all_peers_resolved(&message_id) {
                match self.forward.sender_and_expiry_of(&message_id) {
                    Some((sender, expires_at)) => {
                        self.replay_store.mark_seen(&sender, &message_id, now_ms, expires_at);
                    },
                    None => {},
                }
            }
            i += 1;
        }
        assert(touched@.take(i as int) =~= touched@);
    }
}

/// The ids in order of their first occurrence, each once.
fn distinct_ids(ids: &[[u8; 16]]) -> (distinct: Vec<[u8; 16]>)
    ensures
        distinct@ == first_occurrences(ids@),
{
    let mut distinct: Vec<[u8; 16]> = Vec::new();
    let mut i: usize = 0;
    assert(ids@.take(0) =~= Seq::empty());
    while i < ids.len()
        invariant
            i <= ids@.len(),
            distinct@ == first_occurrences(ids@.take(i as int)),
        decreases ids@.len() - i,
    {
        assert(ids@.take(i + 1).drop_last() =~= ids@.take(i as int));
        let mut known = false;
        let mut j: usize = 0;
        while j < distinct.len() && !known
            invariant
                j <= distinct@.len(),
                i < ids@.len(),
                known <==> exists|k: int| 0 <= k < j && #[trigger] distinct@[k] == ids@[i as int],
            decreases distinct@.len() - j,
        {
            known = bytes::same_array(&distinct[j], &ids[i]);
            j += 1;
        }
        assert(known == distinct@.contains(ids@[i as int]));
        if !known {
            distinct.push(ids[i]);
        }
        i += 1;
    }
    assert(ids@.take(i as int) =~= ids@);
    distinct
}

// ---------------------------------------------------------------------------------------------
// Laws
// ---------------------------------------------------------------------------------------------

/// Nothing is refused but what cannot be sent: a payload the cipher cannot seal, or a recipient
/// whose key is not signed by it or would force the shared secret.
pub proof fn law_only_the_unsendable_is_refused(
    node: NodeData,
    destination: DestinationData,
    payload: PayloadData,
)
    ensures
        wire::payload_len(payload) > primitives::MAX_PLAINTEXT_LEN ==> refusal(
            node,
            destination,
            payload,
        ) == Some(NodeError::PayloadTooLarge),
        wire::payload_len(payload) <= primitives::MAX_PLAINTEXT_LEN ==> match destination {
            DestinationData::DirectV1(id, to) => refusal(node, destination, payload) == if {
                &&& to.x25519_signature.len() == 64
                &&& primitives::ed25519_accepts(
                    to.node_id,
                    identity::binding_bytes(to.node_id, to.x25519_public),
                    to.x25519_signature,
                )
                &&& primitives::x25519_shared(
                    identity::x25519_secret_of(node.seed),
                    to.x25519_public,
                ) != Seq::new(32, |i: int| 0u8)
            } {
                None
            } else {
                Some(NodeError::Crypto(DirectCryptoError::CannotEncryptForRecipient))
            },
            _ => refusal(node, destination, payload) is None,
        },
        primitives::MAX_PLAINTEXT_LEN >= 0x10_0000_0000,
{
}

/// The ids in order of their first occurrence are those ids, each once.
pub proof fn law_first_occurrences(ids: Seq<[u8; 16]>)
    ensures
        first_occurrences(ids).no_duplicates(),
        forall|id: [u8; 16]| first_occurrences(ids).contains(id) <==> #[trigger] ids.contains(id),
        first_occurrences(ids).len() <= ids.len(),
    decreases ids.len(),
{
    if ids.len() > 0 {
        let head = ids.drop_last();
        let last = ids.last();
        law_first_occurrences(head);
        let before = first_occurrences(head);
        let all = first_occurrences(ids);
        assert forall|id: [u8; 16]| all.contains(id) <==> #[trigger] ids.contains(id) by {
            if ids.contains(id) {
                let k = choose|k: int| 0 <= k < ids.len() && ids[k] == id;
                if k < head.len() {
                    assert(head[k] == id);
                    assert(head.contains(id));
                    assert(before.contains(id));
                    let j = choose|j: int| 0 <= j < before.len() && before[j] == id;
                    assert(all[j] == id);
                } else if before.contains(last) {
                    assert(all.contains(id));
                } else {
                    assert(all[before.len() as int] == id);
                }
            }
            if all.contains(id) {
                let j = choose|j: int| 0 <= j < all.len() && all[j] == id;
                if j < before.len() {
                    assert(before[j] == id);
                    assert(before.contains(id));
                    assert(head.contains(id));
                    let k = choose|k: int| 0 <= k < head.len() && head[k] == id;
                    assert(ids[k] == id);
                } else {
                    assert(ids[ids.len() - 1] == id);
                }
            }
        }
        assert(all.no_duplicates());
    }
}

/// Some row of the table is of the message and still pending.
pub open spec fn is_awaited(rows: Seq<ForwardData>, message_id: [u8; 16]) -> bool {
    exists|i: int|
        0 <= i < rows.len() && (#[trigger] rows[i]).message_id == message_id && rows[i].state
            == ForwardState::Pending
}

/// Ending a round of forwarding concerns nothing but which messages are handled: those that were
/// tried and that nobody awaits any more are, under the sender of their first row, and no message
/// that somebody awaits becomes so. There has to be room, and nothing may be out of date.
pub proof fn law_forwarding_ends_when_nobody_waits(
    node: NodeData,
    tried: Seq<[u8; 16]>,
    now_ms: u64,
    message_id: [u8; 16],
    first: int,
    sender: NodeId,
)
    requires
        node.replay.len() + tried.len() < node.replay_limit,
        forall|i: int| 0 <= i < node.replay.len() ==> (#[trigger] node.replay[i]).retain_until >= now_ms,
    ensures
        ({
            let after = having_checked_all(node, first_occurrences(tried), now_ms);
            &&& after == (NodeData { replay: after.replay, ..node })
            &&& tried.contains(message_id) && !is_awaited(node.forward, message_id)
                && is_first_row(node.forward, message_id, first) ==> exists|i: int|
                0 <= i < after.replay.len() && (#[trigger] after.replay[i]).sender
                    == node.forward[first].sender && after.replay[i].message_id == message_id
            &&& is_awaited(node.forward, message_id) && (forall|i: int|
                0 <= i < node.replay.len() ==> !((#[trigger] node.replay[i]).sender == sender
                    && node.replay[i].message_id == message_id)) ==> forall|i: int|
                0 <= i < after.replay.len() ==> !((#[trigger] after.replay[i]).sender == sender
                    && after.replay[i].message_id == message_id)
        }),
{
    law_first_occurrences(tried);
    lemma_checked_all(node, first_occurrences(tried), now_ms, message_id, first, sender);
    if tried.contains(message_id) {
        assert(first_occurrences(tried).contains(message_id));
    }
}

/// The row is the first of the message.
pub open spec fn is_first_row(rows: Seq<ForwardData>, message_id: [u8; 16], at: int) -> bool {
    &&& 0 <= at < rows.len()
    &&& rows[at].message_id == message_id
    &&& forall|k: int| 0 <= k < at ==> (#[trigger] rows[k]).message_id != message_id
}

proof fn lemma_checked_all(
    node: NodeData,
    ids: Seq<[u8; 16]>,
    now_ms: u64,
    message_id: [u8; 16],
    first: int,
    sender: NodeId,
)
    requires
        node.replay.len() + ids.len() < node.replay_limit,
        forall|i: int| 0 <= i < node.replay.len() ==> (#[trigger] node.replay[i]).retain_until >= now_ms,
    ensures
        ({
            let after = having_checked_all(node, ids, now_ms);
            &&& after == (NodeData { replay: after.replay, ..node })
            &&& after.replay.len() <= node.replay.len() + ids.len()
            &&& forall|i: int|
                0 <= i < after.replay.len() ==> (#[trigger] after.replay[i]).retain_until >= now_ms
            &&& ids.contains(message_id) && !is_awaited(node.forward, message_id) && is_first_row(
                node.forward,
                message_id,
                first,
            ) ==> replay_store::has_seen(after.replay, node.forward[first].sender, message_id)
            &&& is_awaited(node.forward, message_id) && replay_store::has_seen(
                after.replay,
                sender,
                message_id,
            ) ==> replay_store::has_seen(node.replay, sender, message_id)
        }),
    decreases ids.len(),
{
    if ids.len() > 0 {
        let head = ids.drop_last();
        let id = ids.last();
        lemma_checked_all(node, head, now_ms, message_id, first, sender);
        let before = having_checked_all(node, head, now_ms);
        let after = having_checked_all(node, ids, now_ms);
        lemma_checked(before, id, now_ms, first);
        replay_store::lemma_added(before.replay, after.replay, sender, message_id);
        replay_store::lemma_added(
            before.replay,
            after.replay,
            node.forward[first].sender,
            message_id,
        );
        if ids.contains(message_id) && id != message_id {
            let k = choose|k: int| 0 <= k < ids.len() && ids[k] == message_id;
            assert(head[k] == message_id);
            assert(head.contains(message_id));
        }
    }
}

proof fn lemma_forward_rows(rows: Seq<ForwardData>, id: [u8; 16], first: int)
    ensures
        forward_store::resolved(rows, id) <==> !is_awaited(rows, id),
        is_first_row(rows, id, first) ==> forward_store::origin(rows, id) == Some(
            (rows[first].sender, rows[first].expires_at),
        ),
{
    forward_store::law_message_is_done_when_nobody_awaits_it(rows, id);
}

/// What looking at one message does.
proof fn lemma_checked(node: NodeData, id: [u8; 16], now_ms: u64, first: int)
    requires
        node.replay.len() < node.replay_limit,
        forall|i: int| 0 <= i < node.replay.len() ==> (#[trigger] node.replay[i]).retain_until >= now_ms,
    ensures
        ({
            let after = having_checked(node, id, now_ms);
            &&& after == (NodeData { replay: after.replay, ..node })
            &&& forall|i: int|
                0 <= i < after.replay.len() ==> (#[trigger] after.replay[i]).retain_until >= now_ms
            &&& after.replay == node.replay || {
                &&& after.replay.len() == node.replay.len() + 1
                &&& after.replay.drop_last() == node.replay
                &&& after.replay.last().message_id == id
                &&& !is_awaited(node.forward, id)
            }
            &&& !is_awaited(node.forward, id) && is_first_row(node.forward, id, first)
                ==> replay_store::has_seen(after.replay, node.forward[first].sender, id)
        }),
{
    lemma_forward_rows(node.forward, id, first);
    let after = having_checked(node, id, now_ms);
    if forward_store::resolved(node.forward, id) && forward_store::origin(node.forward, id)
        is Some {
        let (from, expires_at) = forward_store::origin(node.forward, id)->0;
        replay_store::law_with_room_marking_only_adds(
            node.replay,
            from,
            id,
            now_ms,
            expires_at,
            node.replay_limit,
        );
        replay_store::lemma_added(node.replay, after.replay, from, id);
        assert forall|i: int| 0 <= i < after.replay.len() implies (
        #[trigger] after.replay[i]).retain_until >= now_ms by {
            if i < node.replay.len() {
                assert(after.replay.len() == node.replay.len() || after.replay.drop_last()[i]
                    == after.replay[i]);
                assert(node.replay[i].retain_until >= now_ms);
            }
        }
    }
}

/// What is to be sent holds everything: a transfer at its start is for whom it was meant, nothing
/// of it has been sent, and its chunks carry what it is about and every byte of the data, in order.
pub proof fn law_transfer_starts_with_everything(
    transfer: OutgoingData,
    destination: DestinationData,
    kind: ContentKind,
    file_name: Option<Seq<char>>,
    mime_type: Option<Seq<char>>,
    data: Seq<u8>,
    i: int,
)
    requires
        starts(transfer, destination, kind, file_name, mime_type, data),
        data.len() <= 1_024 * u32::MAX,
        0 <= i < transfer.chunks.len(),
    ensures
        transfer.destination == destination,
        transfer.next == 0,
        (transfer.chunks.len() - 1) * 1_024 <= data.len() <= transfer.chunks.len() * 1_024,
        transfer.chunks[i].transfer_id == transfer.chunks[0].transfer_id,
        transfer.chunks[i].chunk_index == i,
        transfer.chunks[i].chunk_count == transfer.chunks.len(),
        transfer.chunks[i].kind == kind,
        transfer.chunks[i].file_name == file_name,
        transfer.chunks[i].mime_type == mime_type,
        i < transfer.chunks.len() - 1 ==> transfer.chunks[i].data.len() == 1_024,
        i == transfer.chunks.len() - 1 ==> i * 1_024 + transfer.chunks[i].data.len() == data.len(),
        forall|k: int|
            0 <= k < transfer.chunks[i].data.len() ==> (#[trigger] transfer.chunks[i].data[k])
                == data[i * 1_024 + k],
{
    payload::law_chunks_hold_everything(
        transfer.chunks[0].transfer_id,
        kind,
        file_name,
        mime_type,
        data,
    );
    let chunks = payload::chunks_of(
        transfer.chunks[0].transfer_id,
        kind,
        file_name,
        mime_type,
        data,
    );
    assert(chunks[i] == transfer.chunks[i]);
    assert(chunks[0] == transfer.chunks[0]);
}

/// What can be sent is sent: where nothing stands against it, the outcome is an envelope with the
/// payload, readable for those it is meant for, and the node knows it as its own. Otherwise nothing
/// is sent and the node stays as it is.
pub proof fn law_sendable_payload_is_sent(
    result: Result<Outgoing, NodeError>,
    before: NodeData,
    after: NodeData,
    destination: DestinationData,
    message_type: MessageType,
    payload: PayloadData,
    now_ms: u64,
)
    requires
        payload_sent(result, before, after, destination, message_type, payload, now_ms),
    ensures
        refusal(before, destination, payload) is None ==> {
            &&& result is Ok
            &&& sends(result->Ok_0, before, destination, message_type, payload, now_ms)
            &&& after.flood.contains(
                (envelope_of(result->Ok_0).sender, envelope_of(result->Ok_0).message_id),
            ) || before.flood_limit == 0 || before.flood.len() > before.flood_limit
            &&& after == (NodeData { flood: after.flood, replay: after.replay, ..before })
            &&& message_type == MessageType::CallFrame ==> after.replay == before.replay
        },
        refusal(before, destination, payload) is Some ==> {
            &&& result is Err
            &&& Some(result->Err_0) == refusal(before, destination, payload)
            &&& after == before
        },
{
    if result is Ok {
        let e = envelope_of(result->Ok_0);
        if before.flood_limit >= 1 && before.flood.len() <= before.flood_limit {
            flood_guard::law_met_again_is_not_new(
                before.flood,
                (e.sender, e.message_id),
                before.flood_limit,
            );
        }
    }
}

/// A call message is sent to the node that is called, as it is: a frame as a frame, a signal as a
/// signal.
pub proof fn law_call_message_is_sent(
    result: Result<Outgoing, NodeError>,
    before: NodeData,
    after: NodeData,
    target: NodeId,
    message: CallMessageData,
    now_ms: u64,
)
    requires
        call_sent(result, before, after, target, message, now_ms),
        message is Frame ==> message->Frame_0.data.len() <= 0x1_0000_0000,
    ensures
        result is Ok,
        sends(
            result->Ok_0,
            before,
            DestinationData::ChannelDirect(target),
            if message is Frame {
                MessageType::CallFrame
            } else {
                MessageType::CallSignal
            },
            PayloadData::Call(message),
            now_ms,
        ),
{
}

/// A packet is an error only where it is no envelope, and looked at only where it is not too large.
pub proof fn law_only_garbage_is_an_error(node: NodeData, raw: Seq<u8>, now_ms: u64, uptime_ms: u64)
    ensures
        received(node, raw, now_ms, uptime_ms) is None <==> raw.len() <= 65_536
            && wire::envelope_in(raw) is None,
{
}

} // verus!
