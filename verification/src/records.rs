//! What an application is shown: plain records with ids as hexadecimal text.

use vstd::prelude::*;
use vstd::string::*;

use crate::bytes;
use crate::call::{CallFrame, CallFrameData, CallSignal, MediaKind};
use crate::discovery;
use crate::discovery::PeerData;
use crate::identity;
use crate::identity::NodeId;
use crate::payload::{ContentData, ContentKind, ReceivedContent, TransferProgress};
use crate::session;
use crate::session::{ContactData, ContactRecord, VerificationState};

verus! {

// ---------------------------------------------------------------------------------------------
// Messages
// ---------------------------------------------------------------------------------------------

/// What an attachment is.
#[derive(Clone, Copy, Debug, PartialEq, Eq, Structural)]
pub enum AttachmentKind {
    Image,
    Video,
    Voice,
    File,
}

impl AttachmentKind {
    /// The kind of content an attachment is sent as.
    pub open spec fn sent_as(self) -> ContentKind {
        match self {
            AttachmentKind::Image => ContentKind::Image,
            AttachmentKind::Video => ContentKind::Video,
            AttachmentKind::Voice => ContentKind::Voice,
            AttachmentKind::File => ContentKind::File,
        }
    }

    /// The attachment that content of a kind is shown as: anything unspecific is a file.
    pub open spec fn shown_for(kind: ContentKind) -> AttachmentKind {
        match kind {
            ContentKind::Image => AttachmentKind::Image,
            ContentKind::Video => AttachmentKind::Video,
            ContentKind::Voice => AttachmentKind::Voice,
            _ => AttachmentKind::File,
        }
    }

    /// The kind of content an attachment is sent as.
    pub fn into_content_kind(self) -> (kind: ContentKind)
        ensures
            kind == self.sent_as(),
    {
        match self {
            AttachmentKind::Image => ContentKind::Image,
            AttachmentKind::Video => ContentKind::Video,
            AttachmentKind::Voice => ContentKind::Voice,
            AttachmentKind::File => ContentKind::File,
        }
    }

    /// The attachment that content of a kind is shown as.
    pub fn from_content_kind(kind: ContentKind) -> (shown: AttachmentKind)
        ensures
            shown == AttachmentKind::shown_for(kind),
    {
        match kind {
            ContentKind::Image => AttachmentKind::Image,
            ContentKind::Video => AttachmentKind::Video,
            ContentKind::Voice => AttachmentKind::Voice,
            _ => AttachmentKind::File,
        }
    }
}

/// An attachment is shown as what it was sent as.
pub proof fn law_attachments_keep_their_kind(kind: AttachmentKind)
    ensures
        AttachmentKind::shown_for(kind.sent_as()) == kind,
{
}

/// A file that came with a message.
#[derive(Debug)]
pub struct FileAttachment {
    /// The id its progress was reported under.
    pub transfer_id: String,
    pub kind: AttachmentKind,
    pub name: String,
    pub mime: String,
    pub data: Vec<u8>,
}

/// What an attachment says.
pub struct AttachmentData {
    pub transfer_id: Seq<char>,
    pub kind: AttachmentKind,
    pub name: Seq<char>,
    pub mime: Seq<char>,
    pub data: Seq<u8>,
}

impl View for FileAttachment {
    type V = AttachmentData;

    open spec fn view(&self) -> AttachmentData {
        AttachmentData {
            transfer_id: self.transfer_id@,
            kind: self.kind,
            name: self.name@,
            mime: self.mime@,
            data: self.data@,
        }
    }
}

/// A received message: text, or an attachment.
#[derive(Debug)]
pub struct ReceivedMessage {
    /// The sender's node id.
    pub peer_id: String,
    /// The sender's short id.
    pub sender_id: String,
    pub message_id: String,
    pub text: Option<String>,
    pub attachment: Option<FileAttachment>,
}

/// What a received message says.
pub struct MessageData {
    pub peer_id: Seq<char>,
    pub sender_id: Seq<char>,
    pub message_id: Seq<char>,
    pub text: Option<Seq<char>>,
    pub attachment: Option<AttachmentData>,
}

impl View for ReceivedMessage {
    type V = MessageData;

    open spec fn view(&self) -> MessageData {
        MessageData {
            peer_id: self.peer_id@,
            sender_id: self.sender_id@,
            message_id: self.message_id@,
            text: session::text_of(self.text),
            attachment: match self.attachment {
                Some(attachment) => Some(attachment@),
                None => None,
            },
        }
    }
}

/// What is shown of content from a node.
pub open spec fn message_shown(sender: NodeId, message_id: [u8; 16], content: ContentData) -> MessageData {
    MessageData {
        peer_id: bytes::hex_text(sender@),
        sender_id: identity::short_id_text(sender@),
        message_id: bytes::hex_text(message_id@),
        text: match content {
            ContentData::Text(text) => Some(text),
            _ => None,
        },
        attachment: match content {
            ContentData::File { transfer_id, name, mime, kind, data } => Some(
                AttachmentData {
                    transfer_id: bytes::hex_text(transfer_id@),
                    kind: AttachmentKind::shown_for(kind),
                    name,
                    mime,
                    data,
                },
            ),
            _ => None,
        },
    }
}

/// What is shown of content from a node.
pub fn to_received_message(sender: NodeId, message_id: [u8; 16], content: ReceivedContent) -> (message: ReceivedMessage)
    ensures
        message@ == message_shown(sender, message_id, content@),
{
    let peer_id = bytes::hex_encode(sender.as_slice());
    let sender_id = identity::short_id(&sender);
    let message_id = bytes::hex_encode(message_id.as_slice());
    match content {
        ReceivedContent::Text(text) => ReceivedMessage {
            peer_id,
            sender_id,
            message_id,
            text: Some(text),
            attachment: None,
        },
        ReceivedContent::File { transfer_id, name, mime, kind, data } => {
            let attachment = FileAttachment {
                transfer_id: bytes::hex_encode(transfer_id.as_slice()),
                kind: AttachmentKind::from_content_kind(kind),
                name,
                mime,
                data,
            };
            ReceivedMessage {
                peer_id,
                sender_id,
                message_id,
                text: None,
                attachment: Some(attachment),
            }
        },
    }
}

/// What became of a text.
#[derive(Clone, Copy, Debug, PartialEq, Eq, Structural)]
pub enum SendOutcome {
    /// Queued for delivery with acknowledgement and retries, and sent a first time.
    Sent,
    /// Refused, with nothing sent: it does not fit the one chunk that is delivered reliably.
    TooLongForReliableText,
    /// The recipient is not valid or not known, or encryption failed.
    Failed,
}

// ---------------------------------------------------------------------------------------------
// Transfers
// ---------------------------------------------------------------------------------------------

/// Whether a file is on its way out or in.
#[derive(Clone, Copy, Debug, PartialEq, Eq, Structural)]
pub enum TransferDirection {
    Sending,
    Receiving,
}

/// How far the transfer of a file has come.
#[derive(Debug)]
pub struct TransferProgressUpdate {
    pub transfer_id: String,
    pub kind: AttachmentKind,
    pub direction: TransferDirection,
    pub done_chunks: u32,
    pub total_chunks: u32,
}

/// What a progress report says.
pub struct ProgressData {
    pub transfer_id: Seq<char>,
    pub kind: AttachmentKind,
    pub direction: TransferDirection,
    pub done_chunks: u32,
    pub total_chunks: u32,
}

impl View for TransferProgressUpdate {
    type V = ProgressData;

    open spec fn view(&self) -> ProgressData {
        ProgressData {
            transfer_id: self.transfer_id@,
            kind: self.kind,
            direction: self.direction,
            done_chunks: self.done_chunks,
            total_chunks: self.total_chunks,
        }
    }
}

/// What is shown of a transfer's progress.
pub open spec fn progress_shown(progress: TransferProgress, direction: TransferDirection) -> ProgressData {
    ProgressData {
        transfer_id: bytes::hex_text(progress.transfer_id@),
        kind: AttachmentKind::shown_for(progress.kind),
        direction,
        done_chunks: progress.done_chunks,
        total_chunks: progress.total_chunks,
    }
}

/// What is shown of a transfer's progress.
pub fn to_progress_update(progress: TransferProgress, direction: TransferDirection) -> (update: TransferProgressUpdate)
    ensures
        update@ == progress_shown(progress, direction),
{
    TransferProgressUpdate {
        transfer_id: bytes::hex_encode(progress.transfer_id.as_slice()),
        kind: AttachmentKind::from_content_kind(progress.kind),
        direction,
        done_chunks: progress.done_chunks,
        total_chunks: progress.total_chunks,
    }
}

// ---------------------------------------------------------------------------------------------
// Nodes nearby and contacts
// ---------------------------------------------------------------------------------------------

/// A node nearby.
#[derive(Debug)]
pub struct DiscoveredPeer {
    pub node_id: String,
    pub full_node_id: String,
    pub display_name: String,
    pub address: String,
    pub pairing_code: String,
}

/// What is shown of a node nearby.
pub struct NearbyData {
    pub node_id: Seq<char>,
    pub full_node_id: Seq<char>,
    pub display_name: Seq<char>,
    pub address: Seq<char>,
    pub pairing_code: Seq<char>,
}

impl View for DiscoveredPeer {
    type V = NearbyData;

    open spec fn view(&self) -> NearbyData {
        NearbyData {
            node_id: self.node_id@,
            full_node_id: self.full_node_id@,
            display_name: self.display_name@,
            address: self.address@,
            pairing_code: self.pairing_code@,
        }
    }
}

/// What is shown of a node nearby.
pub open spec fn peer_shown(peer: PeerData) -> NearbyData {
    NearbyData {
        node_id: identity::short_id_text(peer.node_id),
        full_node_id: bytes::hex_text(peer.node_id),
        display_name: peer.display_name,
        address: peer.address,
        pairing_code: peer.pairing_code,
    }
}

/// What is shown of a node nearby.
pub fn to_discovered_peer(peer: discovery::DiscoveredPeer) -> (shown: DiscoveredPeer)
    ensures
        shown@ == peer_shown(peer@),
{
    DiscoveredPeer {
        node_id: identity::short_id(&peer.node_id),
        full_node_id: bytes::hex_encode(peer.node_id.as_slice()),
        display_name: peer.display_name,
        address: peer.address,
        pairing_code: peer.pairing_code,
    }
}

/// Whether the local user has verified a contact.
#[derive(Clone, Copy, Debug, PartialEq, Eq, Structural)]
pub enum ContactVerification {
    Unverified,
    Verified,
}

impl ContactVerification {
    /// What a verification state is shown as.
    pub open spec fn shown_for(state: VerificationState) -> ContactVerification {
        match state {
            VerificationState::Unverified => ContactVerification::Unverified,
            VerificationState::Verified => ContactVerification::Verified,
        }
    }

    /// What a verification state is shown as.
    pub fn from_state(state: VerificationState) -> (shown: ContactVerification)
        ensures
            shown == ContactVerification::shown_for(state),
    {
        match state {
            VerificationState::Unverified => ContactVerification::Unverified,
            VerificationState::Verified => ContactVerification::Verified,
        }
    }
}

/// A contact.
#[derive(Debug)]
pub struct ContactIdentity {
    pub node_id: String,
    pub full_node_id: String,
    /// The name the contact gives itself, or nothing.
    pub advertised_name: String,
    pub first_seen_ms: u64,
    pub last_seen_ms: u64,
    pub verification: ContactVerification,
    pub identity_change_pending: bool,
}

/// What is shown of a contact.
pub struct ContactShown {
    pub node_id: Seq<char>,
    pub full_node_id: Seq<char>,
    pub advertised_name: Seq<char>,
    pub first_seen_ms: u64,
    pub last_seen_ms: u64,
    pub verification: ContactVerification,
    pub identity_change_pending: bool,
}

impl View for ContactIdentity {
    type V = ContactShown;

    open spec fn view(&self) -> ContactShown {
        ContactShown {
            node_id: self.node_id@,
            full_node_id: self.full_node_id@,
            advertised_name: self.advertised_name@,
            first_seen_ms: self.first_seen_ms,
            last_seen_ms: self.last_seen_ms,
            verification: self.verification,
            identity_change_pending: self.identity_change_pending,
        }
    }
}

/// What is shown of a contact.
pub open spec fn contact_shown(contact: ContactData) -> ContactShown {
    ContactShown {
        node_id: identity::short_id_text(contact.public_identity.node_id),
        full_node_id: bytes::hex_text(contact.public_identity.node_id),
        advertised_name: match contact.advertised_name {
            Some(name) => name,
            None => Seq::empty(),
        },
        first_seen_ms: contact.first_seen_ms,
        last_seen_ms: contact.last_seen_ms,
        verification: ContactVerification::shown_for(contact.verification),
        identity_change_pending: contact.identity_change_pending,
    }
}

/// What is shown of a contact.
pub fn to_contact_identity(record: &ContactRecord) -> (shown: ContactIdentity)
    ensures
        shown@ == contact_shown(record@),
{
    let advertised_name = match &record.advertised_name {
        Some(name) => name.clone(),
        None => String::new(),
    };
    ContactIdentity {
        node_id: identity::short_id(&record.public_identity.node_id),
        full_node_id: bytes::hex_encode(record.public_identity.node_id.as_slice()),
        advertised_name,
        first_seen_ms: record.first_seen_ms,
        last_seen_ms: record.last_seen_ms,
        verification: ContactVerification::from_state(record.verification),
        identity_change_pending: record.identity_change_pending,
    }
}

/// What has happened to a contact.
#[derive(Clone, Copy, Debug, PartialEq, Eq, Structural)]
pub enum ContactEventKind {
    /// Met for the first time.
    Discovered,
    /// A known contact now has another key. Never to be accepted in silence.
    IdentityChanged,
}

/// News of a contact.
#[derive(Debug)]
pub struct ContactEvent {
    pub full_node_id: String,
    pub kind: ContactEventKind,
}

/// What news of a contact says.
pub struct ContactNews {
    pub full_node_id: Seq<char>,
    pub kind: ContactEventKind,
}

impl View for ContactEvent {
    type V = ContactNews;

    open spec fn view(&self) -> ContactNews {
        ContactNews { full_node_id: self.full_node_id@, kind: self.kind }
    }
}

// ---------------------------------------------------------------------------------------------
// Calls
// ---------------------------------------------------------------------------------------------

/// What a frame of a call carries.
#[derive(Clone, Copy, Debug, PartialEq, Eq, Structural)]
pub enum CallMediaKind {
    Audio,
    Video,
}

impl CallMediaKind {
    /// The medium a frame is sent as.
    pub open spec fn sent_as(self) -> MediaKind {
        match self {
            CallMediaKind::Audio => MediaKind::Audio,
            CallMediaKind::Video => MediaKind::Video,
        }
    }

    /// What a medium is shown as.
    pub open spec fn shown_for(kind: MediaKind) -> CallMediaKind {
        match kind {
            MediaKind::Audio => CallMediaKind::Audio,
            MediaKind::Video => CallMediaKind::Video,
        }
    }

    /// The medium a frame is sent as.
    pub fn into_media_kind(self) -> (kind: MediaKind)
        ensures
            kind == self.sent_as(),
    {
        match self {
            CallMediaKind::Audio => MediaKind::Audio,
            CallMediaKind::Video => MediaKind::Video,
        }
    }

    /// What a medium is shown as.
    pub fn from_media_kind(kind: MediaKind) -> (shown: CallMediaKind)
        ensures
            shown == CallMediaKind::shown_for(kind),
    {
        match kind {
            MediaKind::Audio => CallMediaKind::Audio,
            MediaKind::Video => CallMediaKind::Video,
        }
    }
}

/// What has happened to a call.
#[derive(Clone, Copy, Debug, PartialEq, Eq, Structural)]
pub enum CallEventKind {
    /// Someone is calling.
    IncomingInvite { video: bool },
    /// The other side picked up.
    Accepted,
    /// The other side declined.
    Rejected,
    /// The other side hung up.
    Ended,
}

/// News of a call.
#[derive(Debug)]
pub struct CallEvent {
    pub call_id: String,
    pub remote_node_id: String,
    pub remote_short_id: String,
    pub kind: CallEventKind,
}

/// What news of a call says.
pub struct CallNews {
    pub call_id: Seq<char>,
    pub remote_node_id: Seq<char>,
    pub remote_short_id: Seq<char>,
    pub kind: CallEventKind,
}

impl View for CallEvent {
    type V = CallNews;

    open spec fn view(&self) -> CallNews {
        CallNews {
            call_id: self.call_id@,
            remote_node_id: self.remote_node_id@,
            remote_short_id: self.remote_short_id@,
            kind: self.kind,
        }
    }
}

/// What a signal means to the one who receives it.
pub open spec fn signal_kind(signal: CallSignal) -> CallEventKind {
    match signal {
        CallSignal::Invite { call_id, video } => CallEventKind::IncomingInvite { video },
        CallSignal::Accept { call_id } => CallEventKind::Accepted,
        CallSignal::Reject { call_id } => CallEventKind::Rejected,
        CallSignal::End { call_id } => CallEventKind::Ended,
    }
}

/// What is shown of a signal from a node.
pub open spec fn signal_shown(sender: NodeId, signal: CallSignal) -> CallNews {
    CallNews {
        call_id: bytes::hex_text(signal.call()@),
        remote_node_id: bytes::hex_text(sender@),
        remote_short_id: identity::short_id_text(sender@),
        kind: signal_kind(signal),
    }
}

/// What is shown of a signal from a node.
pub fn to_call_event(sender: NodeId, signal: CallSignal) -> (event: CallEvent)
    ensures
        event@ == signal_shown(sender, signal),
{
    let kind = match signal {
        CallSignal::Invite { video, .. } => CallEventKind::IncomingInvite { video },
        CallSignal::Accept { .. } => CallEventKind::Accepted,
        CallSignal::Reject { .. } => CallEventKind::Rejected,
        CallSignal::End { .. } => CallEventKind::Ended,
    };
    let call_id = signal.call_id();
    CallEvent {
        call_id: bytes::hex_encode(call_id.as_slice()),
        remote_node_id: bytes::hex_encode(sender.as_slice()),
        remote_short_id: identity::short_id(&sender),
        kind,
    }
}

/// One frame of live audio or video.
#[derive(Debug)]
pub struct CallFrameUpdate {
    pub call_id: String,
    pub remote_node_id: String,
    pub media: CallMediaKind,
    pub sequence: u32,
    pub data: Vec<u8>,
}

/// What is shown of a frame.
pub struct FrameShown {
    pub call_id: Seq<char>,
    pub remote_node_id: Seq<char>,
    pub media: CallMediaKind,
    pub sequence: u32,
    pub data: Seq<u8>,
}

impl View for CallFrameUpdate {
    type V = FrameShown;

    open spec fn view(&self) -> FrameShown {
        FrameShown {
            call_id: self.call_id@,
            remote_node_id: self.remote_node_id@,
            media: self.media,
            sequence: self.sequence,
            data: self.data@,
        }
    }
}

/// What is shown of a frame from a node.
pub open spec fn frame_shown(sender: NodeId, frame: CallFrameData) -> FrameShown {
    FrameShown {
        call_id: bytes::hex_text(frame.call_id@),
        remote_node_id: bytes::hex_text(sender@),
        media: CallMediaKind::shown_for(frame.media),
        sequence: frame.sequence,
        data: frame.data,
    }
}

/// What is shown of a frame from a node.
pub fn to_call_frame_update(sender: NodeId, frame: CallFrame) -> (update: CallFrameUpdate)
    ensures
        update@ == frame_shown(sender, frame@),
{
    CallFrameUpdate {
        call_id: bytes::hex_encode(frame.call_id.as_slice()),
        remote_node_id: bytes::hex_encode(sender.as_slice()),
        media: CallMediaKind::from_media_kind(frame.media),
        sequence: frame.sequence,
        data: frame.data,
    }
}

// ---------------------------------------------------------------------------------------------
// Laws
// ---------------------------------------------------------------------------------------------

/// A file is shown whole: without text, and with an attachment of the name, the MIME type and the
/// bytes that came, every one of them.
pub proof fn law_file_is_shown_whole(
    sender: NodeId,
    message_id: [u8; 16],
    transfer_id: [u8; 16],
    name: Seq<char>,
    mime: Seq<char>,
    kind: ContentKind,
    data: Seq<u8>,
)
    ensures
        ({
            let shown = message_shown(
                sender,
                message_id,
                ContentData::File { transfer_id, name, mime, kind, data },
            );
            &&& shown.text is None
            &&& shown.attachment is Some
            &&& shown.attachment->0.name == name
            &&& shown.attachment->0.mime == mime
            &&& shown.attachment->0.data.len() == data.len()
            &&& forall|i: int|
                0 <= i < data.len() ==> (#[trigger] shown.attachment->0.data[i]) == data[i]
            &&& shown.attachment->0.transfer_id == bytes::hex_text(transfer_id@)
            &&& shown.attachment->0.kind == AttachmentKind::Image <==> kind == ContentKind::Image
            &&& shown.attachment->0.kind == AttachmentKind::Video <==> kind == ContentKind::Video
            &&& shown.attachment->0.kind == AttachmentKind::Voice <==> kind == ContentKind::Voice
            &&& shown.peer_id == bytes::hex_text(sender@)
            &&& shown.sender_id == bytes::hex_text(sender@).take(6)
            &&& shown.message_id == bytes::hex_text(message_id@)
        }),
{
    identity::law_short_id_starts_the_id(sender@);
}

/// A text is shown as it came, without an attachment.
pub proof fn law_text_is_shown_whole(sender: NodeId, message_id: [u8; 16], text: Seq<char>)
    ensures
        ({
            let shown = message_shown(sender, message_id, ContentData::Text(text));
            &&& shown.text == Some(text)
            &&& shown.attachment is None
            &&& shown.peer_id == bytes::hex_text(sender@)
            &&& shown.sender_id == bytes::hex_text(sender@).take(6)
            &&& shown.message_id == bytes::hex_text(message_id@)
        }),
{
    identity::law_short_id_starts_the_id(sender@);
}

/// Progress is shown as it is: which transfer, which way, how many chunks of how many.
pub proof fn law_progress_is_shown(progress: TransferProgress, direction: TransferDirection)
    ensures
        ({
            let shown = progress_shown(progress, direction);
            &&& shown.transfer_id == bytes::hex_text(progress.transfer_id@)
            &&& shown.direction == direction
            &&& shown.done_chunks == progress.done_chunks
            &&& shown.total_chunks == progress.total_chunks
            &&& shown.kind == AttachmentKind::Image <==> progress.kind == ContentKind::Image
            &&& shown.kind == AttachmentKind::Video <==> progress.kind == ContentKind::Video
            &&& shown.kind == AttachmentKind::Voice <==> progress.kind == ContentKind::Voice
        }),
{
}

/// A call signal is shown for what it is, with the call it is about and the node it came from.
pub proof fn law_signal_is_shown(sender: NodeId, call_id: [u8; 16], video: bool)
    ensures
        signal_shown(sender, CallSignal::Invite { call_id, video }).kind
            == (CallEventKind::IncomingInvite { video }),
        signal_shown(sender, CallSignal::Accept { call_id }).kind == CallEventKind::Accepted,
        signal_shown(sender, CallSignal::Reject { call_id }).kind == CallEventKind::Rejected,
        signal_shown(sender, CallSignal::End { call_id }).kind == CallEventKind::Ended,
        forall|signal: CallSignal|
            signal == (CallSignal::Invite { call_id, video }) || signal == (CallSignal::Accept {
                call_id,
            }) || signal == (CallSignal::Reject { call_id }) || signal == (CallSignal::End {
                call_id,
            }) ==> {
                &&& (#[trigger] signal_shown(sender, signal)).call_id == bytes::hex_text(call_id@)
                &&& signal_shown(sender, signal).remote_node_id == bytes::hex_text(sender@)
                &&& signal_shown(sender, signal).remote_short_id == bytes::hex_text(sender@).take(6)
            },
{
    identity::law_short_id_starts_the_id(sender@);
}

/// A frame of a call is shown whole, with its call, its medium, its number and the node it came
/// from. The medium it is sent as is the one it is shown as.
pub proof fn law_frame_is_shown_whole(sender: NodeId, frame: CallFrameData, media: CallMediaKind)
    ensures
        ({
            let shown = frame_shown(sender, frame);
            &&& shown.call_id == bytes::hex_text(frame.call_id@)
            &&& shown.remote_node_id == bytes::hex_text(sender@)
            &&& shown.media == CallMediaKind::Audio <==> frame.media == MediaKind::Audio
            &&& shown.sequence == frame.sequence
            &&& shown.data.len() == frame.data.len()
            &&& forall|i: int|
                0 <= i < frame.data.len() ==> (#[trigger] shown.data[i]) == frame.data[i]
        }),
        CallMediaKind::shown_for(media.sent_as()) == media,
        media.sent_as() == MediaKind::Audio <==> media == CallMediaKind::Audio,
{
}

/// A node nearby and a contact are shown as they are known, with ids that read back.
pub proof fn law_nodes_are_shown(peer: PeerData, contact: ContactData)
    requires
        peer.node_id.len() == 32,
        contact.public_identity.node_id.len() == 32,
    ensures
        peer_shown(peer).full_node_id == bytes::hex_text(peer.node_id),
        peer_shown(peer).node_id == bytes::hex_text(peer.node_id).take(6),
        peer_shown(peer).display_name == peer.display_name,
        peer_shown(peer).address == peer.address,
        peer_shown(peer).pairing_code == peer.pairing_code,
        contact_shown(contact).full_node_id == bytes::hex_text(contact.public_identity.node_id),
        contact_shown(contact).node_id == bytes::hex_text(contact.public_identity.node_id).take(6),
        contact.advertised_name is Some ==> contact_shown(contact).advertised_name
            == contact.advertised_name->0,
        contact.advertised_name is None ==> contact_shown(contact).advertised_name.len() == 0,
        contact_shown(contact).first_seen_ms == contact.first_seen_ms,
        contact_shown(contact).last_seen_ms == contact.last_seen_ms,
        contact_shown(contact).verification == ContactVerification::Verified
            <==> contact.verification == VerificationState::Verified,
        contact_shown(contact).identity_change_pending == contact.identity_change_pending,
{
    identity::law_short_id_starts_the_id(peer.node_id);
    identity::law_short_id_starts_the_id(contact.public_identity.node_id);
}

} // verus!
