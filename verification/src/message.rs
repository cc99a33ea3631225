//! The envelope: the signed unit that travels from node to node.
//!
//! Everything the sender vouches for is covered by the signature, so any relay and the recipient
//! can check who sent a message and that its metadata is untouched. The one field left out is
//! `hops_used`, which every relay has to advance. `max_hops` is covered: a relay cannot raise a
//! sender's hop budget without breaking the signature.
//!
//! The recipient is visible to relays; hiding it is not attempted.

use vstd::prelude::*;

use crate::bytes;
use crate::identity::NodeId;

verus! {

/// Version of the envelope layout this node speaks. Envelopes of any other version are dropped.
pub const PROTOCOL_VERSION: u8 = 3;

/// How far a sender's clock may disagree with ours before its `expires_at` counts: five minutes.
pub const CLOCK_SKEW_TOLERANCE_MS: u64 = 300_000;

/// Which scheme produced an envelope's ciphertext. Signed, and visible without decrypting.
#[derive(Clone, Copy, Debug, PartialEq, Eq, Structural)]
pub enum EncryptionMode {
    /// The channel key that everyone with the passphrase shares: broadcasts and calls.
    ChannelV1,
    /// Per-recipient authenticated encryption between two identities: direct chat.
    DirectV1,
}

impl EncryptionMode {
    /// The byte this mode is signed as.
    pub open spec fn tag(self) -> u8 {
        match self {
            EncryptionMode::ChannelV1 => 0,
            EncryptionMode::DirectV1 => 1,
        }
    }

    /// The byte this mode is signed as.
    pub fn discriminant(self) -> (byte: u8)
        ensures
            byte == self.tag(),
    {
        match self {
            EncryptionMode::ChannelV1 => 0,
            EncryptionMode::DirectV1 => 1,
        }
    }

    /// The mode with a given number on the wire.
    pub open spec fn of_number(number: u32) -> Option<EncryptionMode> {
        match number {
            0 => Some(EncryptionMode::ChannelV1),
            1 => Some(EncryptionMode::DirectV1),
            _ => None,
        }
    }

    /// The mode with a given number on the wire; an unknown number is refused.
    pub fn from_number(number: u32) -> (mode: Option<EncryptionMode>)
        ensures
            mode == Self::of_number(number),
    {
        match number {
            0 => Some(EncryptionMode::ChannelV1),
            1 => Some(EncryptionMode::DirectV1),
            _ => None,
        }
    }
}

/// What an envelope carries. Signed, and visible without decrypting.
#[derive(Clone, Copy, Debug, PartialEq, Eq, Structural)]
pub enum MessageType {
    /// A chat message, or one chunk of a file attachment.
    Chat,
    /// Call signalling.
    CallSignal,
    /// One frame of live audio or video.
    CallFrame,
    /// Confirmation that a message was durably accepted by its recipient.
    DeliveryAck,
}

impl MessageType {
    /// The byte this type is signed as, in envelopes and in associated data alike.
    pub open spec fn tag(self) -> u8 {
        match self {
            MessageType::Chat => 0,
            MessageType::CallSignal => 1,
            MessageType::CallFrame => 2,
            MessageType::DeliveryAck => 3,
        }
    }

    /// The byte this type is signed as, in envelopes and in associated data alike.
    pub fn discriminant(self) -> (byte: u8)
        ensures
            byte == self.tag(),
    {
        match self {
            MessageType::Chat => 0,
            MessageType::CallSignal => 1,
            MessageType::CallFrame => 2,
            MessageType::DeliveryAck => 3,
        }
    }

    /// The type with a given number on the wire.
    pub open spec fn of_number(number: u32) -> Option<MessageType> {
        match number {
            0 => Some(MessageType::Chat),
            1 => Some(MessageType::CallSignal),
            2 => Some(MessageType::CallFrame),
            3 => Some(MessageType::DeliveryAck),
            _ => None,
        }
    }

    /// The type with a given number on the wire; an unknown number is refused.
    pub fn from_number(number: u32) -> (kind: Option<MessageType>)
        ensures
            kind == Self::of_number(number),
    {
        match number {
            0 => Some(MessageType::Chat),
            1 => Some(MessageType::CallSignal),
            2 => Some(MessageType::CallFrame),
            3 => Some(MessageType::DeliveryAck),
            _ => None,
        }
    }
}

/// A relayed message.
#[derive(Debug)]
pub struct Envelope {
    /// Layout version this envelope was built with.
    pub protocol_version: u8,
    /// Random id by which duplicates are recognised and acknowledgements refer to a message.
    pub message_id: [u8; 16],
    /// The node that built and signed the envelope.
    pub sender: NodeId,
    /// Who it is for; `None` is everyone on the channel.
    pub recipient: Option<NodeId>,
    /// What the ciphertext carries.
    pub message_type: MessageType,
    /// How the ciphertext was made.
    pub encryption_mode: EncryptionMode,
    /// Unix milliseconds at which the sender built it.
    pub created_at: u64,
    /// Unix milliseconds after which relays drop it.
    pub expires_at: u64,
    /// The sender's hop budget.
    pub max_hops: u8,
    /// Hops travelled so far; the one field the signature does not cover.
    pub hops_used: u8,
    /// Nonce of the channel cipher; unused by direct messages, which carry their own.
    pub nonce: [u8; 24],
    /// The encrypted payload.
    pub ciphertext: Vec<u8>,
    /// The sender's Ed25519 signature; 64 bytes in a well-formed envelope.
    pub signature: Vec<u8>,
}

/// What an envelope says.
pub struct EnvelopeData {
    pub protocol_version: u8,
    pub message_id: [u8; 16],
    pub sender: NodeId,
    pub recipient: Option<NodeId>,
    pub message_type: MessageType,
    pub encryption_mode: EncryptionMode,
    pub created_at: u64,
    pub expires_at: u64,
    pub max_hops: u8,
    pub hops_used: u8,
    pub nonce: [u8; 24],
    pub ciphertext: Seq<u8>,
    pub signature: Seq<u8>,
}

impl View for Envelope {
    type V = EnvelopeData;

    open spec fn view(&self) -> EnvelopeData {
        EnvelopeData {
            protocol_version: self.protocol_version,
            message_id: self.message_id,
            sender: self.sender,
            recipient: self.recipient,
            message_type: self.message_type,
            encryption_mode: self.encryption_mode,
            created_at: self.created_at,
            expires_at: self.expires_at,
            max_hops: self.max_hops,
            hops_used: self.hops_used,
            nonce: self.nonce,
            ciphertext: self.ciphertext@,
            signature: self.signature@,
        }
    }
}

impl Clone for Envelope {
    fn clone(&self) -> (copy: Self)
        ensures
            copy@ == self@,
    {
        Envelope {
            protocol_version: self.protocol_version,
            message_id: self.message_id,
            sender: self.sender,
            recipient: self.recipient,
            message_type: self.message_type,
            encryption_mode: self.encryption_mode,
            created_at: self.created_at,
            expires_at: self.expires_at,
            max_hops: self.max_hops,
            hops_used: self.hops_used,
            nonce: self.nonce,
            ciphertext: bytes::to_vec(self.ciphertext.as_slice()),
            signature: bytes::to_vec(self.signature.as_slice()),
        }
    }
}

/// The bytes an optional recipient is signed as: a presence byte, then the id.
pub open spec fn recipient_bytes(recipient: Option<NodeId>) -> Seq<u8> {
    match recipient {
        Some(id) => seq![1u8] + id@,
        None => seq![0u8],
    }
}

impl EnvelopeData {
    /// The bytes the sender signs: every field but the hop count and the signature, in order.
    pub open spec fn signed_bytes(self) -> Seq<u8> {
        seq![self.protocol_version] + self.message_id@ + self.sender@ + recipient_bytes(
            self.recipient,
        ) + seq![self.message_type.tag(), self.encryption_mode.tag()] + bytes::le64(self.created_at)
            + bytes::le64(self.expires_at) + seq![self.max_hops] + self.nonce@ + self.ciphertext
    }

    /// The hop budget is used up: no relay forwards the envelope any further.
    pub open spec fn out_of_hops(self) -> bool {
        self.hops_used >= self.max_hops
    }

    /// The envelope is stale at `now_ms`, clock skew allowed for.
    pub open spec fn expired_at(self, now_ms: u64) -> bool {
        now_ms > self.expires_at + CLOCK_SKEW_TOLERANCE_MS
    }

    /// The envelope after one more hop.
    pub open spec fn relayed(self) -> EnvelopeData {
        EnvelopeData { hops_used: (self.hops_used + 1) as u8, ..self }
    }
}

impl Envelope {
    /// The bytes the sender signs: every field but the hop count and the signature.
    pub fn signed_payload(&self) -> (payload: Vec<u8>)
        ensures
            payload@ == self@.signed_bytes(),
    {
        let mut buf: Vec<u8> = Vec::new();
        buf.push(self.protocol_version);
        bytes::append(&mut buf, self.message_id.as_slice());
        bytes::append(&mut buf, self.sender.as_slice());
        match self.recipient {
            Some(recipient) => {
                buf.push(1);
                bytes::append(&mut buf, recipient.as_slice());
            },
            None => buf.push(0),
        }
        assert(buf@ =~= seq![self.protocol_version] + self.message_id@ + self.sender@
            + recipient_bytes(self.recipient));
        buf.push(self.message_type.discriminant());
        buf.push(self.encryption_mode.discriminant());
        bytes::append_le64(&mut buf, self.created_at);
        bytes::append_le64(&mut buf, self.expires_at);
        buf.push(self.max_hops);
        bytes::append(&mut buf, self.nonce.as_slice());
        bytes::append(&mut buf, self.ciphertext.as_slice());
        assert(buf@ =~= self@.signed_bytes());
        buf
    }

    /// Whether the declared hop budget has been used up. The recipient still processes such an
    /// envelope; relays stop forwarding it.
    pub fn hop_budget_exhausted(&self) -> (exhausted: bool)
        ensures
            exhausted == self@.out_of_hops(),
    {
        self.hops_used >= self.max_hops
    }

    /// Whether this node understands the envelope's layout.
    pub fn is_supported_version(&self) -> (supported: bool)
        ensures
            supported == (self.protocol_version == PROTOCOL_VERSION),
    {
        self.protocol_version == PROTOCOL_VERSION
    }

    /// Whether the envelope is stale at `now_ms`.
    pub fn is_expired(&self, now_ms: u64) -> (expired: bool)
        ensures
            expired == self@.expired_at(now_ms),
    {
        now_ms > self.expires_at.saturating_add(CLOCK_SKEW_TOLERANCE_MS)
    }
}

/// Relaying leaves the signed bytes alone: whatever a relay writes into the hop count, the
/// signature stays as valid or invalid as it was.
pub proof fn law_hop_count_is_not_signed(envelope: EnvelopeData, hops: u8)
    ensures
        (EnvelopeData { hops_used: hops, ..envelope }).signed_bytes() == envelope.signed_bytes(),
{
}

/// Everything but the hop count is bound by the signature: two envelopes with the same signed
/// bytes agree in every other field, so none can be altered without changing what was signed.
#[verifier::rlimit(40)]
pub proof fn law_signed_fields_are_bound(a: EnvelopeData, b: EnvelopeData)
    requires
        a.signed_bytes() == b.signed_bytes(),
    ensures
        a == (EnvelopeData { hops_used: a.hops_used, signature: a.signature, ..b }),
{
    let (a1, b1) = (seq![a.protocol_version], seq![b.protocol_version]);
    let (a2, b2) = (a1 + a.message_id@, b1 + b.message_id@);
    let (a3, b3) = (a2 + a.sender@, b2 + b.sender@);
    let (a4, b4) = (a3 + recipient_bytes(a.recipient), b3 + recipient_bytes(b.recipient));
    let (a_tags, b_tags) = (
        seq![a.message_type.tag(), a.encryption_mode.tag()],
        seq![b.message_type.tag(), b.encryption_mode.tag()],
    );
    let (a5, b5) = (a4 + a_tags, b4 + b_tags);
    let (a6, b6) = (a5 + bytes::le64(a.created_at), b5 + bytes::le64(b.created_at));
    let (a7, b7) = (a6 + bytes::le64(a.expires_at), b6 + bytes::le64(b.expires_at));
    let (a8, b8) = (a7 + seq![a.max_hops], b7 + seq![b.max_hops]);
    let (a9, b9) = (a8 + a.nonce@, b8 + b.nonce@);
    let x = a.signed_bytes();
    assert(x == a9 + a.ciphertext && x == b9 + b.ciphertext);
    assert(x[49] == recipient_bytes(a.recipient)[0]) by {
        lemma_kept(a3, recipient_bytes(a.recipient), a_tags + bytes::le64(a.created_at) + bytes::le64(a.expires_at) + seq![a.max_hops] + a.nonce@ + a.ciphertext, x);
    }
    assert(x[49] == recipient_bytes(b.recipient)[0]) by {
        lemma_kept(b3, recipient_bytes(b.recipient), b_tags + bytes::le64(b.created_at) + bytes::le64(b.expires_at) + seq![b.max_hops] + b.nonce@ + b.ciphertext, x);
    }
    assert(recipient_bytes(a.recipient).len() == recipient_bytes(b.recipient).len());
    bytes::lemma_split(a9, a.ciphertext, b9, b.ciphertext);
    bytes::lemma_split(a8, a.nonce@, b8, b.nonce@);
    bytes::lemma_split(a7, seq![a.max_hops], b7, seq![b.max_hops]);
    bytes::lemma_split(a6, bytes::le64(a.expires_at), b6, bytes::le64(b.expires_at));
    bytes::lemma_split(a5, bytes::le64(a.created_at), b5, bytes::le64(b.created_at));
    bytes::lemma_split(a4, a_tags, b4, b_tags);
    bytes::lemma_split(a3, recipient_bytes(a.recipient), b3, recipient_bytes(b.recipient));
    bytes::lemma_split(a2, a.sender@, b2, b.sender@);
    bytes::lemma_split(a1, a.message_id@, b1, b.message_id@);
    assert(a1[0] == b1[0]);
    assert(a_tags[0] == b_tags[0] && a_tags[1] == b_tags[1]);
    assert(seq![a.max_hops][0] == seq![b.max_hops][0]);
    bytes::lemma_array_ext(a.message_id, b.message_id);
    bytes::lemma_array_ext(a.sender, b.sender);
    bytes::lemma_array_ext(a.nonce, b.nonce);
    bytes::lemma_64_injective(a.created_at, b.created_at);
    bytes::lemma_64_injective(a.expires_at, b.expires_at);
    if a.recipient is Some {
        bytes::lemma_split(seq![1u8], a.recipient->0@, seq![1u8], b.recipient->0@);
        bytes::lemma_array_ext(a.recipient->0, b.recipient->0);
    }
}

proof fn lemma_kept(head: Seq<u8>, middle: Seq<u8>, tail: Seq<u8>, whole: Seq<u8>)
    requires
        whole =~= head + middle + tail,
        middle.len() > 0,
    ensures
        whole[head.len() as int] == middle[0],
{
}

/// What is signed is laid out field after field, so that every node signs and checks the same
/// bytes.
pub proof fn law_signed_fields_are_in_order(e: EnvelopeData)
    ensures
        ({
            let s = e.signed_bytes();
            let at = if e.recipient is Some {
                82int
            } else {
                50int
            };
            &&& s.len() == at + 43 + e.ciphertext.len()
            &&& s[0] == e.protocol_version
            &&& s.subrange(1, 17) == e.message_id@
            &&& s.subrange(17, 49) == e.sender@
            &&& e.recipient is None ==> s[49] == 0
            &&& e.recipient matches Some(id) ==> s[49] == 1 && s.subrange(50, 82) == id@
            &&& s[at] == match e.message_type {
                MessageType::Chat => 0u8,
                MessageType::CallSignal => 1u8,
                MessageType::CallFrame => 2u8,
                MessageType::DeliveryAck => 3u8,
            }
            &&& s[at + 1] == match e.encryption_mode {
                EncryptionMode::ChannelV1 => 0u8,
                EncryptionMode::DirectV1 => 1u8,
            }
            &&& s.subrange(at + 2, at + 10) == bytes::le64(e.created_at)
            &&& s.subrange(at + 10, at + 18) == bytes::le64(e.expires_at)
            &&& s[at + 18] == e.max_hops
            &&& s.subrange(at + 19, at + 43) == e.nonce@
            &&& s.skip(at + 43) == e.ciphertext
        }),
{
    let s = e.signed_bytes();
    let at = if e.recipient is Some {
        82int
    } else {
        50int
    };
    assert(s.subrange(1, 17) =~= e.message_id@);
    assert(s.subrange(17, 49) =~= e.sender@);
    if e.recipient is Some {
        assert(s.subrange(50, 82) =~= e.recipient->0@);
    }
    assert(s.subrange(at + 2, at + 10) =~= bytes::le64(e.created_at));
    assert(s.subrange(at + 10, at + 18) =~= bytes::le64(e.expires_at));
    assert(s.subrange(at + 19, at + 43) =~= e.nonce@);
    assert(s.skip(at + 43) =~= e.ciphertext);
}

} // verus!
