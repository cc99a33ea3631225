//! MeshTalk: the logic of an offline mesh messenger.
//!
//! Devices hand messages on to their neighbours, hop by hop, with no server between them. Each
//! device has an identity ([`identity`]); messages travel in signed envelopes ([`message`]),
//! encrypted for a channel ([`crypto`]) or for one recipient ([`session`], [`direct_crypto`]).
//! A node ([`node`]) decides what to do about every packet, and keeps what must outlive a restart
//! in stores ([`replay_store`], [`delivery_store`], [`forward_store`], [`inbox_store`]). A client
//! ([`client`]) is a node with contacts and with what a user interface polls.
//!
//! The library reads no clock, socket or file: it is handed the time and the packets, and hands
//! out what is to be sent and stored. What holds of the node as a whole stands in [`guarantees`].

pub mod backoff;
pub mod bytes;
pub mod call;
pub mod client;
pub mod codec;
pub mod contact_store;
pub mod crypto;
pub mod delivery_store;
pub mod direct_crypto;
pub mod discovery;
pub mod flood_guard;
pub mod forward_store;
pub mod framing;
pub mod guarantees;
pub mod identity;
pub mod inbox_store;
pub mod layout;
pub mod message;
pub mod node;
pub mod payload;
pub mod primitives;
pub mod queue;
pub mod reassembly;
pub mod records;
pub mod replay_store;
pub mod session;
pub mod store;
pub mod table;
pub mod timeline;
pub mod wire;

pub use call::{CallFrame, CallMessage, CallSignal, MediaKind};
pub use crypto::ChannelKey;
pub use delivery_store::{DeliveryStore, OutboundState, DEFAULT_DELIVERY_STORE_CAPACITY};
pub use direct_crypto::{
    decrypt_direct_message, encode_aad_v1, encrypt_direct_message, try_encrypt_direct_message, DirectCiphertext,
    DirectCryptoError, DirectCryptoHeaderV1, DirectEnvelopeBody, DirectMessageAadV1, ENCRYPTION_VERSION,
};
pub use forward_store::{ForwardState, ForwardStore, DEFAULT_FORWARD_STORE_CAPACITY};
pub use identity::{short_id, Identity, NodeId, X25519Public};
pub use inbox_store::{InboxMessage, InboxStore, InsertOutcome, DEFAULT_INBOX_STORE_CAPACITY};
pub use message::{EncryptionMode, Envelope, MessageType, PROTOCOL_VERSION};
pub use node::{IncomingEvent, MeshNode};
pub use payload::{ContentKind, DeliveryAck, ReceivedContent, TransferProgress, CHUNK_SIZE};
pub use replay_store::{ReplayStore, DEFAULT_REPLAY_STORE_CAPACITY};
pub use session::{
    session_protocol_version, ContactRecord, PublicIdentity, Session, VerificationState, VerifiedPublicIdentity,
};
