//! Direct encryption: authenticated encryption from one identity to another.
//!
//! A direct message is sealed with the sender's outbound session key; everything an envelope
//! says in the clear is associated data, so nothing can be moved to another envelope. The sender
//! also signs associated data, nonce and ciphertext. A header in front carries the sender's
//! X25519 key with its binding signature: the recipient needs no earlier contact to decrypt.
//!
//! Every failure is closed: there is no weaker scheme to fall back to.

use vstd::prelude::*;
use vstd::string::*;
use vstd::utf8::*;

use crate::bytes;
use crate::identity;
use crate::identity::{Identity, NodeId, X25519Public};
use crate::message::MessageType;
use crate::primitives;
use crate::session;
use crate::session::{PublicIdentity, PublicIdentityData, Session, SessionData, VerifiedPublicIdentity};

verus! {

broadcast use vstd::string::group_string_axioms;

/// Version of the direct encryption scheme.
pub const ENCRYPTION_VERSION: u8 = 1;

/// Prefix of all associated data of this scheme.
pub const AAD_DOMAIN_TAG: &'static str = "MESHTALK-AAD-V1";

/// A sealed message holds at least the authentication tag.
pub const MIN_CIPHERTEXT_LEN: usize = 16;

// ---------------------------------------------------------------------------------------------
// Associated data
// ---------------------------------------------------------------------------------------------

/// What a direct message is bound to.
#[derive(Clone, Copy)]
pub struct DirectMessageAadV1 {
    pub protocol_version: u8,
    pub encryption_version: u8,
    pub message_id: [u8; 16],
    pub sender: NodeId,
    pub recipient: NodeId,
    pub message_type: MessageType,
    pub created_at: u64,
    pub expires_at: u64,
    pub max_hops: u8,
}

impl DirectMessageAadV1 {
    /// Associated data in the current version of the scheme.
    pub fn new(
        protocol_version: u8,
        message_id: [u8; 16],
        sender: NodeId,
        recipient: NodeId,
        message_type: MessageType,
        created_at: u64,
        expires_at: u64,
        max_hops: u8,
    ) -> (aad: DirectMessageAadV1)
        ensures
            aad == (DirectMessageAadV1 {
                protocol_version,
                encryption_version: ENCRYPTION_VERSION,
                message_id,
                sender,
                recipient,
                message_type,
                created_at,
                expires_at,
                max_hops,
            }),
    {
        DirectMessageAadV1 {
            protocol_version,
            encryption_version: ENCRYPTION_VERSION,
            message_id,
            sender,
            recipient,
            message_type,
            created_at,
            expires_at,
            max_hops,
        }
    }

    /// The encoding: the domain tag, then every field at a fixed width, numbers in network order.
    pub open spec fn encoded(self) -> Seq<u8> {
        encode_utf8(AAD_DOMAIN_TAG@) + seq![self.protocol_version, self.encryption_version]
            + self.message_id@ + self.sender@ + self.recipient@ + seq![self.message_type.tag()]
            + bytes::be64(self.created_at) + bytes::be64(self.expires_at) + seq![self.max_hops]
    }
}

/// Encodes associated data.
pub fn encode_aad_v1(aad: &DirectMessageAadV1) -> (encoded: Vec<u8>)
    ensures
        encoded@ == aad.encoded(),
{
    let mut buf: Vec<u8> = Vec::new();
    bytes::append(&mut buf, AAD_DOMAIN_TAG.as_bytes());
    buf.push(aad.protocol_version);
    buf.push(aad.encryption_version);
    bytes::append(&mut buf, aad.message_id.as_slice());
    bytes::append(&mut buf, aad.sender.as_slice());
    bytes::append(&mut buf, aad.recipient.as_slice());
    buf.push(aad.message_type.discriminant());
    bytes::append_be64(&mut buf, aad.created_at);
    bytes::append_be64(&mut buf, aad.expires_at);
    buf.push(aad.max_hops);
    assert(buf@ =~= aad.encoded());
    buf
}

/// No two sets of associated data have one encoding: every field is bound by the ciphertext.
pub proof fn law_associated_data_is_unambiguous(a: DirectMessageAadV1, b: DirectMessageAadV1)
    requires
        a.encoded() == b.encoded(),
    ensures
        a == b,
{
    lemma_fixed_fields(encode_utf8(AAD_DOMAIN_TAG@), a, b);
}

proof fn lemma_fixed_fields(tag: Seq<u8>, a: DirectMessageAadV1, b: DirectMessageAadV1)
    requires
        tag + seq![a.protocol_version, a.encryption_version] + a.message_id@ + a.sender@
            + a.recipient@ + seq![a.message_type.tag()] + bytes::be64(a.created_at) + bytes::be64(
            a.expires_at,
        ) + seq![a.max_hops] == tag + seq![b.protocol_version, b.encryption_version]
            + b.message_id@ + b.sender@ + b.recipient@ + seq![b.message_type.tag()] + bytes::be64(
            b.created_at,
        ) + bytes::be64(b.expires_at) + seq![b.max_hops],
    ensures
        a == b,
{
    let (av, bv) = (
        seq![a.protocol_version, a.encryption_version],
        seq![b.protocol_version, b.encryption_version],
    );
    let (a1, b1) = (tag + av, tag + bv);
    let (a2, b2) = (a1 + a.message_id@, b1 + b.message_id@);
    let (a3, b3) = (a2 + a.sender@, b2 + b.sender@);
    let (a4, b4) = (a3 + a.recipient@, b3 + b.recipient@);
    let (a5, b5) = (a4 + seq![a.message_type.tag()], b4 + seq![b.message_type.tag()]);
    let (a6, b6) = (a5 + bytes::be64(a.created_at), b5 + bytes::be64(b.created_at));
    let (a7, b7) = (a6 + bytes::be64(a.expires_at), b6 + bytes::be64(b.expires_at));
    bytes::lemma_64_injective(a.created_at, b.created_at);
    bytes::lemma_64_injective(a.expires_at, b.expires_at);
    assert(a7.len() == b7.len());
    bytes::lemma_split(a7, seq![a.max_hops], b7, seq![b.max_hops]);
    bytes::lemma_split(a6, bytes::be64(a.expires_at), b6, bytes::be64(b.expires_at));
    bytes::lemma_split(a5, bytes::be64(a.created_at), b5, bytes::be64(b.created_at));
    bytes::lemma_split(a4, seq![a.message_type.tag()], b4, seq![b.message_type.tag()]);
    bytes::lemma_split(a3, a.recipient@, b3, b.recipient@);
    bytes::lemma_split(a2, a.sender@, b2, b.sender@);
    bytes::lemma_split(a1, a.message_id@, b1, b.message_id@);
    bytes::lemma_split(tag, av, tag, bv);
    assert(av[0] == bv[0] && av[1] == bv[1]);
    assert(seq![a.max_hops][0] == seq![b.max_hops][0]);
    assert(seq![a.message_type.tag()][0] == seq![b.message_type.tag()][0]);
    bytes::lemma_array_ext(a.message_id, b.message_id);
    bytes::lemma_array_ext(a.sender, b.sender);
    bytes::lemma_array_ext(a.recipient, b.recipient);
}

// ---------------------------------------------------------------------------------------------
// Errors
// ---------------------------------------------------------------------------------------------

/// Why a direct message could not be encrypted or decrypted.
#[derive(Clone, Copy, Debug, PartialEq, Eq, Structural)]
pub enum DirectCryptoError {
    /// The recipient's key is not bound to its node id, or would force the shared secret.
    CannotEncryptForRecipient,
    /// The associated data names a version of the scheme this node does not know.
    UnknownEncryptionVersion,
    /// The sender's signature does not match.
    SignatureInvalid,
    /// The ciphertext does not open under the session key.
    DecryptionFailed,
    /// Ciphertext or signature has an impossible length.
    MalformedInput,
}

impl DirectCryptoError {
    /// The text of an error.
    pub open spec fn text(self) -> &'static str {
        match self {
            DirectCryptoError::CannotEncryptForRecipient => "cannot encrypt for recipient: no verified session key available",
            DirectCryptoError::UnknownEncryptionVersion => "unknown encryption version",
            DirectCryptoError::SignatureInvalid => "signature invalid",
            DirectCryptoError::DecryptionFailed => "decryption failed",
            DirectCryptoError::MalformedInput => "malformed input",
        }
    }

    /// The text to show for this error.
    pub fn message(&self) -> (text: String)
        ensures
            text@ == self.text()@,
    {
        let text: &'static str = match self {
            DirectCryptoError::CannotEncryptForRecipient => "cannot encrypt for recipient: no verified session key available",
            DirectCryptoError::UnknownEncryptionVersion => "unknown encryption version",
            DirectCryptoError::SignatureInvalid => "signature invalid",
            DirectCryptoError::DecryptionFailed => "decryption failed",
            DirectCryptoError::MalformedInput => "malformed input",
        };
        text.to_owned()
    }
}

// ---------------------------------------------------------------------------------------------
// Messages
// ---------------------------------------------------------------------------------------------

/// A sealed and signed message.
#[derive(Debug)]
pub struct DirectCiphertext {
    pub nonce: [u8; 24],
    pub ciphertext: Vec<u8>,
    /// Signature over associated data, nonce and ciphertext; 64 bytes where well formed.
    pub signature: Vec<u8>,
}

/// What a sealed message says.
pub struct DirectCiphertextData {
    pub nonce: Seq<u8>,
    pub ciphertext: Seq<u8>,
    pub signature: Seq<u8>,
}

impl View for DirectCiphertext {
    type V = DirectCiphertextData;

    open spec fn view(&self) -> DirectCiphertextData {
        DirectCiphertextData {
            nonce: self.nonce@,
            ciphertext: self.ciphertext@,
            signature: self.signature@,
        }
    }
}

impl Clone for DirectCiphertext {
    fn clone(&self) -> (copy: Self)
        ensures
            copy@ == self@,
    {
        DirectCiphertext {
            nonce: self.nonce,
            ciphertext: bytes::to_vec(self.ciphertext.as_slice()),
            signature: bytes::to_vec(self.signature.as_slice()),
        }
    }
}

/// The sender's X25519 key, and the proof that it is the sender's.
#[derive(Debug)]
pub struct DirectCryptoHeaderV1 {
    pub sender_x25519_public: X25519Public,
    pub sender_x25519_signature: Vec<u8>,
}

/// What a header says.
pub struct DirectCryptoHeaderData {
    pub sender_x25519_public: Seq<u8>,
    pub sender_x25519_signature: Seq<u8>,
}

impl View for DirectCryptoHeaderV1 {
    type V = DirectCryptoHeaderData;

    open spec fn view(&self) -> DirectCryptoHeaderData {
        DirectCryptoHeaderData {
            sender_x25519_public: self.sender_x25519_public@,
            sender_x25519_signature: self.sender_x25519_signature@,
        }
    }
}

impl DirectCryptoHeaderData {
    /// The public identity a header claims for `sender`.
    pub open spec fn claimed(self, sender: Seq<u8>) -> PublicIdentityData {
        PublicIdentityData {
            node_id: sender,
            x25519_public: self.sender_x25519_public,
            x25519_signature: self.sender_x25519_signature,
        }
    }
}

/// The header the owner of a seed sends.
pub open spec fn header_of(seed: Seq<u8>) -> DirectCryptoHeaderData {
    DirectCryptoHeaderData {
        sender_x25519_public: session::public_identity_of(seed).x25519_public,
        sender_x25519_signature: session::public_identity_of(seed).x25519_signature,
    }
}

impl Clone for DirectCryptoHeaderV1 {
    fn clone(&self) -> (copy: Self)
        ensures
            copy@ == self@,
    {
        DirectCryptoHeaderV1 {
            sender_x25519_public: self.sender_x25519_public,
            sender_x25519_signature: bytes::to_vec(self.sender_x25519_signature.as_slice()),
        }
    }
}

impl DirectCryptoHeaderV1 {
    /// The header of a sender. It verifies for that sender.
    pub fn new(sender_identity: &Identity) -> (header: DirectCryptoHeaderV1)
        ensures
            header@ == header_of(sender_identity@),
            header@.claimed(primitives::ed25519_public(sender_identity@)).bound(),
            identity::x25519_secret_of(sender_identity@).len() == 32,
    {
        let signature = sender_identity.sign_x25519_public();
        DirectCryptoHeaderV1 {
            sender_x25519_public: sender_identity.x25519_public(),
            sender_x25519_signature: bytes::to_vec(signature.as_slice()),
        }
    }

    /// The sender's verified identity, or `None` where the header was not made by `sender`.
    pub fn verify_sender(&self, sender: NodeId) -> (verified: Option<VerifiedPublicIdentity>)
        ensures
            verified is Some <==> self@.claimed(sender@).bound(),
            verified matches Some(v) ==> v@ == self@.claimed(sender@),
    {
        let public_identity = PublicIdentity {
            node_id: sender,
            x25519_public: self.sender_x25519_public,
            x25519_signature: bytes::to_vec(self.sender_x25519_signature.as_slice()),
        };
        assert(public_identity@ == self@.claimed(sender@));
        match public_identity.verify() {
            Ok(verified) => Some(verified),
            Err(_) => None,
        }
    }
}

/// What the ciphertext field of a direct envelope holds.
#[derive(Debug)]
pub struct DirectEnvelopeBody {
    pub header: DirectCryptoHeaderV1,
    pub message: DirectCiphertext,
}

/// What a body says.
pub struct DirectEnvelopeBodyData {
    pub header: DirectCryptoHeaderData,
    pub message: DirectCiphertextData,
}

impl View for DirectEnvelopeBody {
    type V = DirectEnvelopeBodyData;

    open spec fn view(&self) -> DirectEnvelopeBodyData {
        DirectEnvelopeBodyData { header: self.header@, message: self.message@ }
    }
}

impl Clone for DirectEnvelopeBody {
    fn clone(&self) -> (copy: Self)
        ensures
            copy@ == self@,
    {
        DirectEnvelopeBody { header: self.header.clone(), message: self.message.clone() }
    }
}

// ---------------------------------------------------------------------------------------------
// Encryption and decryption
// ---------------------------------------------------------------------------------------------

/// The bytes a sender signs over a sealed message.
pub open spec fn signed_over(aad: DirectMessageAadV1, nonce: Seq<u8>, ciphertext: Seq<u8>) -> Seq<u8> {
    aad.encoded() + nonce + ciphertext
}

/// The message that results from sealing `plaintext` under a given nonce.
pub open spec fn direct_sealed(
    seed: Seq<u8>,
    session: SessionData,
    aad: DirectMessageAadV1,
    plaintext: Seq<u8>,
    nonce: Seq<u8>,
) -> DirectCiphertextData {
    let ciphertext = primitives::xchacha_sealed(
        session.outbound(),
        nonce,
        aad.encoded(),
        plaintext,
    );
    DirectCiphertextData {
        nonce,
        ciphertext,
        signature: primitives::ed25519_signature(seed, signed_over(aad, nonce, ciphertext)),
    }
}

/// What decrypting a message gives: the checks in order, the first that fails decides.
pub open spec fn direct_opened(
    session: SessionData,
    sender: Seq<u8>,
    aad: DirectMessageAadV1,
    message: DirectCiphertextData,
) -> Result<Seq<u8>, DirectCryptoError> {
    if aad.encryption_version != ENCRYPTION_VERSION {
        Err(DirectCryptoError::UnknownEncryptionVersion)
    } else if message.ciphertext.len() < MIN_CIPHERTEXT_LEN || message.signature.len() != 64 {
        Err(DirectCryptoError::MalformedInput)
    } else if !primitives::ed25519_accepts(
        sender,
        signed_over(aad, message.nonce, message.ciphertext),
        message.signature,
    ) {
        Err(DirectCryptoError::SignatureInvalid)
    } else {
        match primitives::opened(
            session.inbound(),
            message.nonce,
            aad.encoded(),
            message.ciphertext,
        ) {
            Some(plaintext) => Ok(plaintext),
            None => Err(DirectCryptoError::DecryptionFailed),
        }
    }
}

fn signed_payload(aad_bytes: &Vec<u8>, nonce: &[u8; 24], ciphertext: &Vec<u8>) -> (payload: Vec<u8>)
    ensures
        payload@ == aad_bytes@ + nonce@ + ciphertext@,
{
    let mut payload: Vec<u8> = Vec::new();
    bytes::append(&mut payload, aad_bytes.as_slice());
    bytes::append(&mut payload, nonce.as_slice());
    bytes::append(&mut payload, ciphertext.as_slice());
    assert(payload@ =~= aad_bytes@ + nonce@ + ciphertext@);
    payload
}

/// Seals and signs `plaintext` for the session's peer, under a fresh random nonce. Whoever
/// decrypts with the session's outbound key, and names the same associated data and this sender,
/// gets the plaintext back.
pub fn encrypt_direct_message(
    sender_identity: &Identity,
    session: &Session,
    aad: &DirectMessageAadV1,
    plaintext: &[u8],
) -> (sealed: DirectCiphertext)
    requires
        plaintext@.len() <= primitives::MAX_PLAINTEXT_LEN,
    ensures
        sealed@ == direct_sealed(sender_identity@, session@, *aad, plaintext@, sealed@.nonce),
        sealed@.ciphertext.len() == plaintext@.len() + primitives::TAG_LEN,
        sealed@.signature.len() == 64,
        primitives::ed25519_accepts(
            primitives::ed25519_public(sender_identity@),
            signed_over(*aad, sealed@.nonce, sealed@.ciphertext),
            sealed@.signature,
        ),
        forall|theirs: SessionData|
            #![trigger theirs.inbound()]
            theirs.inbound() == session@.outbound() && aad.encryption_version == ENCRYPTION_VERSION
                ==> direct_opened(
                theirs,
                primitives::ed25519_public(sender_identity@),
                *aad,
                sealed@,
            ) == Ok::<Seq<u8>, DirectCryptoError>(plaintext@),
{
    let key = session.outbound_key();
    let nonce = primitives::generate_nonce();
    let aad_bytes = encode_aad_v1(aad);
    let ciphertext = primitives::xchacha_encrypt(&key, &nonce, aad_bytes.as_slice(), plaintext);
    let payload = signed_payload(&aad_bytes, &nonce, &ciphertext);
    let signature = sender_identity.sign(payload.as_slice());
    assert(payload@ == signed_over(*aad, nonce@, ciphertext@));
    DirectCiphertext { nonce, ciphertext, signature: bytes::to_vec(signature.as_slice()) }
}

/// Seals and signs `plaintext` for a recipient known by its public identity. Refused where the
/// recipient's key is not bound to its node id or would force the shared secret. The recipient,
/// and whoever else decrypts with the key of the session, gets the plaintext back.
pub fn try_encrypt_direct_message(
    sender_identity: &Identity,
    recipient_identity: PublicIdentity,
    aad: &DirectMessageAadV1,
    plaintext: &[u8],
) -> (result: Result<DirectCiphertext, DirectCryptoError>)
    requires
        plaintext@.len() <= primitives::MAX_PLAINTEXT_LEN,
    ensures
        result is Ok <==> recipient_identity@.bound() && session::session_of(
            sender_identity@,
            recipient_identity@,
        ) is Some,
        result matches Err(e) ==> e == DirectCryptoError::CannotEncryptForRecipient,
        result matches Ok(sealed) ==> sealed@ == direct_sealed(
            sender_identity@,
            session::session_of(sender_identity@, recipient_identity@)->0,
            *aad,
            plaintext@,
            sealed@.nonce,
        ),
        result matches Ok(sealed) ==> {
            &&& sealed@.ciphertext.len() == plaintext@.len() + primitives::TAG_LEN
            &&& sealed@.signature.len() == 64
            &&& primitives::ed25519_accepts(
                primitives::ed25519_public(sender_identity@),
                signed_over(*aad, sealed@.nonce, sealed@.ciphertext),
                sealed@.signature,
            )
            &&& forall|theirs: SessionData|
                #![trigger theirs.inbound()]
                theirs.inbound() == session::session_of(
                    sender_identity@,
                    recipient_identity@,
                )->0.outbound() && aad.encryption_version == ENCRYPTION_VERSION ==> direct_opened(
                    theirs,
                    primitives::ed25519_public(sender_identity@),
                    *aad,
                    sealed@,
                ) == Ok::<Seq<u8>, DirectCryptoError>(plaintext@)
        },
        forall|seed: Seq<u8>|
            #![trigger session::session_of(seed, session::public_identity_of(sender_identity@))]
            result is Ok && identity::x25519_secret_of(seed).len() == 32
                && primitives::ed25519_public(seed) == recipient_identity@.node_id
                && identity::x25519_public_of(seed) == recipient_identity@.x25519_public
                && primitives::ed25519_public(sender_identity@) != recipient_identity@.node_id
                && aad.encryption_version == ENCRYPTION_VERSION ==> {
                let theirs = session::session_of(
                    seed,
                    session::public_identity_of(sender_identity@),
                );
                &&& theirs is Some
                &&& direct_opened(
                    theirs->0,
                    primitives::ed25519_public(sender_identity@),
                    *aad,
                    result->Ok_0@,
                ) == Ok::<Seq<u8>, DirectCryptoError>(plaintext@)
            },
{
    let verified = match recipient_identity.verify() {
        Ok(verified) => verified,
        Err(_) => {
            return Err(DirectCryptoError::CannotEncryptForRecipient);
        },
    };
    match Session::establish(sender_identity, &verified) {
        Some(session) => Ok(encrypt_direct_message(sender_identity, &session, aad, plaintext)),
        None => Err(DirectCryptoError::CannotEncryptForRecipient),
    }
}

/// Decrypts a message from `sender`.
pub fn decrypt_direct_message(
    session: &Session,
    sender: &NodeId,
    aad: &DirectMessageAadV1,
    message: &DirectCiphertext,
) -> (result: Result<Vec<u8>, DirectCryptoError>)
    ensures
        match result {
            Ok(plaintext) => direct_opened(session@, sender@, *aad, message@) == Ok::<
                Seq<u8>,
                DirectCryptoError,
            >(plaintext@),
            Err(e) => direct_opened(session@, sender@, *aad, message@) == Err::<
                Seq<u8>,
                DirectCryptoError,
            >(e),
        },
{
    if aad.encryption_version != ENCRYPTION_VERSION {
        return Err(DirectCryptoError::UnknownEncryptionVersion);
    }
    if message.ciphertext.len() < MIN_CIPHERTEXT_LEN {
        return Err(DirectCryptoError::MalformedInput);
    }
    let signature: [u8; 64] = match bytes::to_array(message.signature.as_slice()) {
        Some(signature) => signature,
        None => {
            return Err(DirectCryptoError::MalformedInput);
        },
    };
    let aad_bytes = encode_aad_v1(aad);
    let payload = signed_payload(&aad_bytes, &message.nonce, &message.ciphertext);
    assert(payload@ == signed_over(*aad, message@.nonce, message@.ciphertext));
    if !identity::verify(sender, payload.as_slice(), &signature) {
        return Err(DirectCryptoError::SignatureInvalid);
    }
    let key = session.inbound_key();
    match primitives::open(&key, &message.nonce, aad_bytes.as_slice(), message.ciphertext.as_slice()) {
        Some(plaintext) => Ok(plaintext),
        None => Err(DirectCryptoError::DecryptionFailed),
    }
}

/// What a sender signs tells the message: no two messages, with whatever associated data, have the
/// same bytes to be signed.
proof fn lemma_signed_over(
    aad: DirectMessageAadV1,
    message: DirectCiphertextData,
    other_aad: DirectMessageAadV1,
    other: DirectCiphertextData,
)
    requires
        message.nonce.len() == 24,
        other.nonce.len() == 24,
        signed_over(aad, message.nonce, message.ciphertext) == signed_over(
            other_aad,
            other.nonce,
            other.ciphertext,
        ),
    ensures
        aad == other_aad,
        message.nonce == other.nonce,
        message.ciphertext == other.ciphertext,
{
    let (a, b) = (aad.encoded(), other_aad.encoded());
    assert(a.len() == b.len());
    bytes::lemma_split(
        a + message.nonce,
        message.ciphertext,
        b + other.nonce,
        other.ciphertext,
    );
    bytes::lemma_split(a, message.nonce, b, other.nonce);
    law_associated_data_is_unambiguous(aad, other_aad);
}

/// Only what the sender has signed is decrypted. A message that decrypts carries a signature that
/// is accepted as the sender's over this very associated data, nonce and ciphertext; change any of
/// the nine fields of the associated data, the nonce or the ciphertext, and it is another byte
/// string that the sender would have to have signed.
pub proof fn law_only_signed_messages_open(
    session: SessionData,
    sender: Seq<u8>,
    aad: DirectMessageAadV1,
    message: DirectCiphertextData,
    other_aad: DirectMessageAadV1,
    other: DirectCiphertextData,
)
    requires
        message.nonce.len() == 24,
        other.nonce.len() == 24,
        direct_opened(session, sender, aad, message) is Ok,
    ensures
        primitives::ed25519_accepts(
            sender,
            signed_over(aad, message.nonce, message.ciphertext),
            message.signature,
        ),
        message.signature.len() == 64,
        aad != other_aad || message.nonce != other.nonce || message.ciphertext
            != other.ciphertext ==> signed_over(aad, message.nonce, message.ciphertext)
            != signed_over(other_aad, other.nonce, other.ciphertext),
{
    if signed_over(aad, message.nonce, message.ciphertext) == signed_over(
        other_aad,
        other.nonce,
        other.ciphertext,
    ) {
        lemma_signed_over(aad, message, other_aad, other);
    }
}

/// A message that comes unchanged, signature and all, is refused by a session for one reason only:
/// its key does not open the ciphertext. What sealing gives meets the conditions.
pub proof fn law_unchanged_message_can_only_fail_to_decrypt(
    session: SessionData,
    sender: Seq<u8>,
    aad: DirectMessageAadV1,
    message: DirectCiphertextData,
)
    requires
        aad.encryption_version == ENCRYPTION_VERSION,
        message.ciphertext.len() >= primitives::TAG_LEN,
        message.signature.len() == 64,
        primitives::ed25519_accepts(
            sender,
            signed_over(aad, message.nonce, message.ciphertext),
            message.signature,
        ),
    ensures
        ({
            let key = session.inbound();
            let plaintext = primitives::opened(
                key,
                message.nonce,
                aad.encoded(),
                message.ciphertext,
            );
            let result = direct_opened(session, sender, aad, message);
            &&& plaintext is None <==> result == Err::<Seq<u8>, DirectCryptoError>(
                DirectCryptoError::DecryptionFailed,
            )
            &&& plaintext matches Some(p) ==> result == Ok::<Seq<u8>, DirectCryptoError>(p)
        }),
{
}

/// The associated data is laid out field after field behind its tag, so that both ends of a session
/// bind a message to the same bytes.
pub proof fn law_associated_data_is_in_order(aad: DirectMessageAadV1)
    ensures
        ({
            let s = aad.encoded();
            let tag = encode_utf8("MESHTALK-AAD-V1"@);
            let at = tag.len() as int;
            &&& s.len() == at + 100
            &&& s.take(at) == tag
            &&& s[at] == aad.protocol_version
            &&& s[at + 1] == aad.encryption_version
            &&& s.subrange(at + 2, at + 18) == aad.message_id@
            &&& s.subrange(at + 18, at + 50) == aad.sender@
            &&& s.subrange(at + 50, at + 82) == aad.recipient@
            &&& s[at + 82] == match aad.message_type {
                MessageType::Chat => 0u8,
                MessageType::CallSignal => 1u8,
                MessageType::CallFrame => 2u8,
                MessageType::DeliveryAck => 3u8,
            }
            &&& s.subrange(at + 83, at + 91) == bytes::be64(aad.created_at)
            &&& s.subrange(at + 91, at + 99) == bytes::be64(aad.expires_at)
            &&& s[at + 99] == aad.max_hops
        }),
{
    let s = aad.encoded();
    let tag = encode_utf8(AAD_DOMAIN_TAG@);
    let at = tag.len() as int;
    assert(s.take(at) =~= tag);
    assert(s.subrange(at + 2, at + 18) =~= aad.message_id@);
    assert(s.subrange(at + 18, at + 50) =~= aad.sender@);
    assert(s.subrange(at + 50, at + 82) =~= aad.recipient@);
    assert(s.subrange(at + 83, at + 91) =~= bytes::be64(aad.created_at));
    assert(s.subrange(at + 91, at + 99) =~= bytes::be64(aad.expires_at));
}

} // verus!
