//! The client an application holds: a node, its contacts, and news waiting to be taken.
//!
//! Contacts are learned from discovery. A known contact that shows up with another key is never
//! accepted in silence: its new key is used from then on, but whatever trust it had is gone, a
//! warning stays pending until the user dismisses it, and the application is told.
//!
//! Chat goes to contacts only, encrypted for them alone. Where that is not possible nothing is
//! sent; nothing weaker is tried.

use vstd::prelude::*;
use vstd::string::*;
use vstd::utf8::*;

use crate::bytes;
use crate::call;
use crate::call::{CallFrame, CallMessage, CallMessageData, CallSignal};
use crate::contact_store;
use crate::contact_store::{ContactStore, PersistedStoreV1};
use crate::crypto;
use crate::crypto::ChannelKey;
use crate::delivery_store::DeliveryStore;
use crate::discovery;
use crate::discovery::PeerData;
use crate::flood_guard;
use crate::forward_store::ForwardStore;
use crate::identity;
use crate::identity::{Identity, NodeId};
use crate::inbox_store;
use crate::inbox_store::{InboxData, InboxMessage, InboxStore, StoredMessage};
use crate::message::MessageType;
use crate::node;
use crate::node::{
    DestinationData, EventData, IncomingEvent, MeshNode, NodeData, NodeError, Outgoing,
    OutgoingTransfer, MESSAGE_LIFETIME_MS,
};
use crate::payload::{ContentData, TransferProgress, CHUNK_SIZE};
use crate::primitives;
use crate::queue;
use crate::queue::BoundedQueue;
use crate::reassembly::TransferData;
use crate::records;
use crate::records::{
    AttachmentKind, CallEvent, CallFrameUpdate, CallMediaKind, CallNews, ContactEvent,
    ContactEventKind, ContactIdentity, ContactNews, DiscoveredPeer, FrameShown, MessageData,
    ProgressData, ReceivedMessage, SendOutcome, TransferDirection, TransferProgressUpdate,
};
use crate::replay_store::ReplayStore;
use crate::session::{
    ContactData, ContactRecord, PublicIdentity, PublicIdentityData, VerificationState,
};
use crate::table;
use crate::timeline;

verus! {

broadcast use vstd::string::group_string_axioms;

/// How many messages wait to be taken at most.
pub const INBOX_CAPACITY: usize = 500;

/// How many progress reports wait to be taken at most.
pub const PROGRESS_CAPACITY: usize = 2000;

/// How much news of calls waits to be taken at most.
pub const CALL_EVENT_CAPACITY: usize = 100;

/// How many frames wait to be taken at most.
pub const CALL_FRAME_CAPACITY: usize = 500;

/// How much news of contacts waits to be taken at most.
pub const CONTACT_EVENT_CAPACITY: usize = 200;

/// How often accepting, declining and hanging up are signalled. An invitation is sent once: each
/// one rings.
pub const SIGNAL_RETRY_COUNT: usize = 3;

/// The pause between two signals.
pub const SIGNAL_RETRY_DELAY_MS: u64 = 200;

// ---------------------------------------------------------------------------------------------
// Keys and ids
// ---------------------------------------------------------------------------------------------

/// The identity with a stored seed, or a new one where there is none of 32 bytes.
pub fn resolve_identity(seed: Option<Vec<u8>>) -> (identity: Identity)
    ensures
        identity@.len() == 32,
        seed matches Some(s) ==> s@.len() == 32 ==> identity@ == s@,
{
    if let Some(seed) = seed {
        if let Some(seed) = bytes::to_array(seed.as_slice()) {
            return Identity::from_seed(seed);
        }
    }
    Identity::generate()
}

/// The stored key of the inbox, or a new random one where there is none of 32 bytes.
pub fn resolve_storage_key(key: Option<Vec<u8>>) -> (resolved: [u8; 32])
    ensures
        key matches Some(k) ==> k@.len() == 32 ==> resolved@ == k@,
{
    if let Some(key) = key {
        if let Some(key) = bytes::to_array(key.as_slice()) {
            return key;
        }
    }
    primitives::random_bytes()
}

/// The node a hexadecimal text stands for.
pub open spec fn node_named(text: Seq<char>) -> Option<Seq<u8>> {
    bytes::hex_parsed(encode_utf8(text), 32)
}

/// The call a hexadecimal text stands for.
pub open spec fn call_named(text: Seq<char>) -> Option<Seq<u8>> {
    bytes::hex_parsed(encode_utf8(text), 16)
}

/// The node and the call that two texts stand for.
pub open spec fn target_and_call(remote: Seq<char>, call: Seq<char>) -> Option<(NodeId, [u8; 16])> {
    match (node_named(remote), call_named(call)) {
        (Some(node_id), Some(call_id)) => Some(
            (bytes::array_with::<32>(node_id), bytes::array_with::<16>(call_id)),
        ),
        _ => None,
    }
}

/// The node and the call that two texts stand for; `None` where either stands for none.
pub fn parse_target_and_call(remote_node_id: &str, call_id: &str) -> (parsed: Option<(NodeId, [u8; 16])>)
    ensures
        parsed == target_and_call(remote_node_id@, call_id@),
{
    let target: NodeId = match bytes::hex_decode(remote_node_id) {
        Some(target) => target,
        None => {
            return None;
        },
    };
    let call: [u8; 16] = match bytes::hex_decode(call_id) {
        Some(call) => call,
        None => {
            return None;
        },
    };
    proof {
        bytes::lemma_array_with(target);
        bytes::lemma_array_with(call);
    }
    Some((target, call))
}

/// How long a signal that has been sent `sent` times waits before it is sent again: the first
/// time not at all, and after the last there is no further time.
pub fn pause_before_signal(sent: usize) -> (pause: Option<u64>)
    ensures
        pause == if sent == 0 {
            Some(0u64)
        } else if sent < SIGNAL_RETRY_COUNT {
            Some(SIGNAL_RETRY_DELAY_MS)
        } else {
            None::<u64>
        },
{
    if sent == 0 {
        Some(0)
    } else if sent < SIGNAL_RETRY_COUNT {
        Some(SIGNAL_RETRY_DELAY_MS)
    } else {
        None
    }
}

// ---------------------------------------------------------------------------------------------
// The client
// ---------------------------------------------------------------------------------------------

/// What a client is started with.
#[derive(Debug)]
pub struct MeshClientConfig {
    pub display_name: String,
    pub listen_addr: String,
    pub peer_addrs: Vec<String>,
    pub channel_passphrase: String,
    pub ttl: u8,
    pub identity_seed: Option<Vec<u8>>,
    pub contacts_db_path: Option<String>,
    pub replay_store_path: Option<String>,
    pub delivery_store_path: Option<String>,
    pub forward_store_path: Option<String>,
    pub inbox_store_path: Option<String>,
    pub inbox_storage_key: Option<Vec<u8>>,
}

/// What an earlier run left behind.
pub struct ClientStores {
    pub contacts: ContactStore,
    pub replay: ReplayStore,
    pub delivery: DeliveryStore,
    pub forward: ForwardStore,
    pub inbox: InboxStore,
}

/// All that a client knows.
pub struct ClientData {
    pub node: NodeData,
    pub contacts: Seq<ContactData>,
    pub inbox: Seq<MessageData>,
    pub progress: Seq<ProgressData>,
    pub call_events: Seq<CallNews>,
    pub call_frames: Seq<FrameShown>,
    pub contact_events: Seq<ContactNews>,
    pub display_name: Seq<char>,
    pub storage_key: Seq<u8>,
}

/// A running client.
pub struct MeshClient {
    node: MeshNode,
    contacts: ContactStore,
    inbox: BoundedQueue<ReceivedMessage>,
    progress: BoundedQueue<TransferProgressUpdate>,
    call_events: BoundedQueue<CallEvent>,
    call_frames: BoundedQueue<CallFrameUpdate>,
    contact_events: BoundedQueue<ContactEvent>,
    display_name: String,
    inbox_storage_key: [u8; 32],
}

impl View for MeshClient {
    type V = ClientData;

    closed spec fn view(&self) -> ClientData {
        ClientData {
            node: self.node@,
            contacts: self.contacts@,
            inbox: self.inbox@,
            progress: self.progress@,
            call_events: self.call_events@,
            call_frames: self.call_frames@,
            contact_events: self.contact_events@,
            display_name: self.display_name@,
            storage_key: self.inbox_storage_key@,
        }
    }
}

/// No queue holds more than it may.
pub open spec fn within_bounds(client: ClientData) -> bool {
    &&& client.inbox.len() <= INBOX_CAPACITY
    &&& client.progress.len() <= PROGRESS_CAPACITY
    &&& client.call_events.len() <= CALL_EVENT_CAPACITY
    &&& client.call_frames.len() <= CALL_FRAME_CAPACITY
    &&& client.contact_events.len() <= CONTACT_EVENT_CAPACITY
}

// ---------------------------------------------------------------------------------------------
// News
// ---------------------------------------------------------------------------------------------

/// The client after its node has had news.
pub open spec fn told(client: ClientData, event: EventData) -> ClientData {
    match event {
        EventData::Content(delivered) => ClientData {
            inbox: queue::queued(
                client.inbox,
                records::message_shown(delivered.sender, delivered.message_id, delivered.content),
                INBOX_CAPACITY as nat,
            ),
            ..client
        },
        EventData::Progress(sender, progress) => reported(
            client,
            progress,
            TransferDirection::Receiving,
        ),
        EventData::Call(sender, CallMessageData::Signal(signal)) => ClientData {
            call_events: queue::queued(
                client.call_events,
                records::signal_shown(sender, signal),
                CALL_EVENT_CAPACITY as nat,
            ),
            ..client
        },
        EventData::Call(sender, CallMessageData::Frame(frame)) => ClientData {
            call_frames: queue::queued(
                client.call_frames,
                records::frame_shown(sender, frame),
                CALL_FRAME_CAPACITY as nat,
            ),
            ..client
        },
    }
}

/// The client after a transfer has come further.
pub open spec fn reported(client: ClientData, progress: TransferProgress, direction: TransferDirection) -> ClientData {
    ClientData {
        progress: queue::queued(
            client.progress,
            records::progress_shown(progress, direction),
            PROGRESS_CAPACITY as nat,
        ),
        ..client
    }
}

// ---------------------------------------------------------------------------------------------
// Contacts
// ---------------------------------------------------------------------------------------------

/// A contact after its node was met again. Trust and alias are the user's own: the alias stays,
/// and trust goes only where the key is another one.
pub open spec fn met_again(contact: ContactData, peer: PeerData, now_ms: u64) -> ContactData {
    let seen = ContactData { advertised_name: Some(peer.display_name), ..contact.seen_at(now_ms) };
    if contact.public_identity.x25519_public != peer.public_identity.x25519_public {
        ContactData { public_identity: peer.public_identity, ..seen.with_change_pending() }
    } else {
        seen
    }
}

/// The contacts after a node was met.
pub open spec fn contacts_after(contacts: Seq<ContactData>, peer: PeerData, now_ms: u64) -> Seq<ContactData> {
    contact_store::with_record(
        contacts,
        match contact_store::record_of(contacts, peer.public_identity.node_id) {
            Some(contact) => met_again(contact, peer, now_ms),
            None => ContactData::first_met(peer.public_identity, Some(peer.display_name), now_ms),
        },
    )
}

/// The news that meeting a node makes.
pub open spec fn news_of(contacts: Seq<ContactData>, peer: PeerData) -> Option<ContactNews> {
    let full_node_id = bytes::hex_text(peer.public_identity.node_id);
    match contact_store::record_of(contacts, peer.public_identity.node_id) {
        Some(contact) => if contact.public_identity.x25519_public
            != peer.public_identity.x25519_public {
            Some(ContactNews { full_node_id, kind: ContactEventKind::IdentityChanged })
        } else {
            None
        },
        None => Some(ContactNews { full_node_id, kind: ContactEventKind::Discovered }),
    }
}

/// The waiting news after a node was met.
pub open spec fn events_after(events: Seq<ContactNews>, news: Option<ContactNews>) -> Seq<ContactNews> {
    match news {
        Some(news) => queue::queued(events, news, CONTACT_EVENT_CAPACITY as nat),
        None => events,
    }
}

/// The client after nodes were met, one after the other.
pub open spec fn having_met_all(client: ClientData, peers: Seq<PeerData>, now_ms: u64) -> ClientData
    decreases peers.len(),
{
    if peers.len() == 0 {
        client
    } else {
        let before = having_met_all(client, peers.drop_last(), now_ms);
        ClientData {
            contacts: contacts_after(before.contacts, peers.last(), now_ms),
            contact_events: events_after(
                before.contact_events,
                news_of(before.contacts, peers.last()),
            ),
            ..before
        }
    }
}

/// The contact a hexadecimal text stands for.
pub open spec fn contact_named(contacts: Seq<ContactData>, text: Seq<char>) -> Option<ContactData> {
    match node_named(text) {
        Some(node_id) => contact_store::record_of(contacts, node_id),
        None => None,
    }
}

/// Where chat to a contact goes.
pub open spec fn chat_with(to: PublicIdentityData) -> DestinationData {
    DestinationData::DirectV1(bytes::array_with::<32>(to.node_id), to)
}

/// A text was queued for a contact and is to be sent.
pub open spec fn text_queued(
    outgoing: Outgoing,
    before: NodeData,
    after: NodeData,
    to: PublicIdentityData,
    text: Seq<char>,
    now_ms: u64,
) -> bool {
    &&& exists|transfer_id: [u8; 16]|
        node::sends(
            outgoing,
            before,
            chat_with(to),
            MessageType::Chat,
            #[trigger] node::text_payload(transfer_id, encode_utf8(text)),
            now_ms,
        )
    &&& after == node::having_queued(
        node::having_sent(before, node::envelope_of(outgoing)),
        node::envelope_of(outgoing),
        bytes::array_with::<32>(to.node_id),
        outgoing.bytes@,
    )
}

/// A text cannot be encrypted for a contact.
pub open spec fn text_refused(node: NodeData, to: PublicIdentityData, text: Seq<char>) -> bool {
    exists|transfer_id: [u8; 16]|
        node::refusal(
            node,
            chat_with(to),
            #[trigger] node::text_payload(transfer_id, encode_utf8(text)),
        ) is Some
}

/// What is shown of stored messages.
pub open spec fn messages_shown(messages: Seq<InboxData>) -> Seq<MessageData> {
    messages.map_values(
        |m: InboxData| records::message_shown(m.sender, m.message_id, m.content),
    )
}

fn show_messages(messages: Vec<InboxMessage>) -> (shown: Vec<ReceivedMessage>)
    ensures
        table::views(shown@) == messages_shown(table::views(messages@)),
{
    let mut shown: Vec<ReceivedMessage> = Vec::new();
    let mut i: usize = 0;
    while i < messages.len()
        invariant
            i <= messages@.len(),
            shown@.len() == i,
            forall|j: int|
                0 <= j < i ==> (#[trigger] shown@[j])@ == records::message_shown(
                    messages@[j].sender,
                    messages@[j].message_id,
                    messages@[j].content@,
                ),
        decreases messages@.len() - i,
    {
        let message = &messages[i];
        shown.push(
            records::to_received_message(
                message.sender,
                message.message_id,
                message.content.clone(),
            ),
        );
        i += 1;
    }
    assert(table::views(shown@) =~= messages_shown(table::views(messages@)));
    shown
}

impl MeshClient {
    /// The queues have their capacities, and no contact has two records.
    pub closed spec fn wf(self) -> bool {
        &&& self.contacts.wf()
        &&& self.inbox.limit() == INBOX_CAPACITY
        &&& self.progress.limit() == PROGRESS_CAPACITY
        &&& self.call_events.limit() == CALL_EVENT_CAPACITY
        &&& self.call_frames.limit() == CALL_FRAME_CAPACITY
        &&& self.contact_events.limit() == CONTACT_EVENT_CAPACITY
        &&& within_bounds(self@)
    }

    /// No queue of a client ever holds more than it may.
    pub proof fn law_queues_stay_within_bounds(self)
        requires
            self.wf(),
        ensures
            within_bounds(self@),
    {
    }

    /// A client that takes up where an earlier run left off. The key it reports is the one its
    /// inbox is sealed with.
    pub fn new(config: MeshClientConfig, inbox_storage_key: [u8; 32], stores: ClientStores) -> (client: MeshClient)
        requires
            stores.contacts.wf(),
            stores.inbox.storage_key() == inbox_storage_key@,
            config.inbox_storage_key matches Some(k) ==> k@.len() == 32 ==> inbox_storage_key@ == k@,
        ensures
            client.wf(),
            config.identity_seed matches Some(s) ==> s@.len() == 32 ==> client@.node.seed == s@,
            client@.node.seed.len() == 32,
            client@.node.id@ == primitives::ed25519_public(client@.node.seed),
            client@.node.channel_key == crypto::channel_key_of(config.channel_passphrase@),
            client@.node.max_hops == config.ttl,
            client@.node.replay == stores.replay@,
            client@.node.replay_limit == stores.replay.limit(),
            client@.node.delivery == stores.delivery@,
            client@.node.delivery_limit == stores.delivery.limit(),
            client@.node.forward == stores.forward@,
            client@.node.forward_limit == stores.forward.limit(),
            client@.node.inbox == stores.inbox@,
            client@.node.inbox_limit == stores.inbox.limit(),
            client@.node.inbox_key == stores.inbox.storage_key(),
            client@.node.flood == Seq::<(NodeId, [u8; 16])>::empty(),
            client@.node.flood_limit == flood_guard::DEFAULT_CAPACITY,
            client@.node.transfers == Seq::<TransferData>::empty(),
            stores.replay.well_formed() && stores.delivery.well_formed()
                && stores.forward.well_formed() && stores.inbox.well_formed()
                ==> client@.node.well_formed(),
            client@.contacts == stores.contacts@,
            client@.inbox == Seq::<MessageData>::empty(),
            client@.progress == Seq::<ProgressData>::empty(),
            client@.call_events == Seq::<CallNews>::empty(),
            client@.call_frames == Seq::<FrameShown>::empty(),
            client@.contact_events == Seq::<ContactNews>::empty(),
            client@.display_name == config.display_name@,
            client@.storage_key == inbox_storage_key@,
            client@.storage_key == client@.node.inbox_key,
            config.inbox_storage_key matches Some(k) ==> k@.len() == 32 ==> client@.storage_key == k@,
    {
        let identity = resolve_identity(config.identity_seed);
        let channel_key = ChannelKey::from_passphrase(config.channel_passphrase.as_str());
        let _ = identity.node_id();
        MeshClient {
            node: MeshNode::new_with_stores(
                identity,
                channel_key,
                config.ttl,
                stores.replay,
                stores.delivery,
                stores.forward,
                stores.inbox,
            ),
            contacts: stores.contacts,
            inbox: BoundedQueue::new(INBOX_CAPACITY),
            progress: BoundedQueue::new(PROGRESS_CAPACITY),
            call_events: BoundedQueue::new(CALL_EVENT_CAPACITY),
            call_frames: BoundedQueue::new(CALL_FRAME_CAPACITY),
            contact_events: BoundedQueue::new(CONTACT_EVENT_CAPACITY),
            display_name: config.display_name,
            inbox_storage_key,
        }
    }

    /// The node.
    pub fn node(&self) -> (node: &MeshNode)
        ensures
            node@ == self@.node,
    {
        &self.node
    }

    /// The node, to be worked with.
    pub fn node_mut(&mut self) -> (node: &mut MeshNode)
        ensures
            node@ == old(self)@.node,
            final(self)@ == (ClientData { node: final(node)@, ..old(self)@ }),
            old(self).wf() ==> final(self).wf(),
    {
        &mut self.node
    }

    /// The seed of this device's identity in hexadecimal, to be stored like a private key.
    pub fn identity_seed(&self) -> (seed: String)
        ensures
            seed@ == bytes::hex_text(self@.node.seed),
    {
        let seed = self.node.identity_seed();
        bytes::hex_encode(seed.as_slice())
    }

    /// The key of the inbox in hexadecimal, to be stored like a private key.
    pub fn inbox_storage_key(&self) -> (key: String)
        ensures
            key@ == bytes::hex_text(self@.storage_key),
    {
        bytes::hex_encode(self.inbox_storage_key.as_slice())
    }

    /// This device's short id.
    pub fn node_id(&self) -> (id: String)
        ensures
            id@ == identity::short_id_text(self@.node.id@),
    {
        identity::short_id(&self.node.node_id())
    }

    /// This device's node id in hexadecimal.
    pub fn full_node_id(&self) -> (id: String)
        ensures
            id@ == bytes::hex_text(self@.node.id@),
    {
        let id = self.node.node_id();
        bytes::hex_encode(id.as_slice())
    }

    /// The name this device gives itself.
    pub fn display_name(&self) -> (name: &str)
        ensures
            name@ == self@.display_name,
    {
        self.display_name.as_str()
    }

    /// Takes note of news from the node.
    pub fn take_event(&mut self, event: IncomingEvent)
        requires
            old(self).wf(),
        ensures
            final(self).wf(),
            final(self)@ == told(old(self)@, event@),
    {
        match event {
            IncomingEvent::Content(delivered) => {
                self.inbox.push(
                    records::to_received_message(
                        delivered.sender,
                        delivered.message_id,
                        delivered.content,
                    ),
                );
            },
            IncomingEvent::Progress(_sender, progress) => {
                self.progress.push(
                    records::to_progress_update(progress, TransferDirection::Receiving),
                );
            },
            IncomingEvent::Call(sender, CallMessage::Signal(signal)) => {
                self.call_events.push(records::to_call_event(sender, signal));
            },
            IncomingEvent::Call(sender, CallMessage::Frame(frame)) => {
                self.call_frames.push(records::to_call_frame_update(sender, frame));
            },
        }
    }

    /// Takes note of how far a file on its way out has come.
    pub fn take_sending_progress(&mut self, progress: TransferProgress)
        requires
            old(self).wf(),
        ensures
            final(self).wf(),
            final(self)@ == reported(old(self)@, progress, TransferDirection::Sending),
    {
        self.progress.push(records::to_progress_update(progress, TransferDirection::Sending));
    }

    /// The oldest message not taken yet.
    pub fn poll_message(&mut self) -> (message: Option<ReceivedMessage>)
        requires
            old(self).wf(),
        ensures
            final(self).wf(),
            message is None <==> old(self)@.inbox.len() == 0,
            message matches Some(m) ==> m@ == old(self)@.inbox[0],
            final(self)@ == (ClientData {
                inbox: if message is Some {
                    old(self)@.inbox.drop_first()
                } else {
                    old(self)@.inbox
                },
                ..old(self)@
            }),
    {
        self.inbox.pop()
    }

    /// The oldest progress report not taken yet.
    pub fn poll_transfer_progress(&mut self) -> (update: Option<TransferProgressUpdate>)
        requires
            old(self).wf(),
        ensures
            final(self).wf(),
            update is None <==> old(self)@.progress.len() == 0,
            update matches Some(u) ==> u@ == old(self)@.progress[0],
            final(self)@ == (ClientData {
                progress: if update is Some {
                    old(self)@.progress.drop_first()
                } else {
                    old(self)@.progress
                },
                ..old(self)@
            }),
    {
        self.progress.pop()
    }

    /// The oldest news of a call not taken yet.
    pub fn poll_call_event(&mut self) -> (event: Option<CallEvent>)
        requires
            old(self).wf(),
        ensures
            final(self).wf(),
            event is None <==> old(self)@.call_events.len() == 0,
            event matches Some(e) ==> e@ == old(self)@.call_events[0],
            final(self)@ == (ClientData {
                call_events: if event is Some {
                    old(self)@.call_events.drop_first()
                } else {
                    old(self)@.call_events
                },
                ..old(self)@
            }),
    {
        self.call_events.pop()
    }

    /// The oldest frame not taken yet.
    pub fn poll_call_frame(&mut self) -> (frame: Option<CallFrameUpdate>)
        requires
            old(self).wf(),
        ensures
            final(self).wf(),
            frame is None <==> old(self)@.call_frames.len() == 0,
            frame matches Some(f) ==> f@ == old(self)@.call_frames[0],
            final(self)@ == (ClientData {
                call_frames: if frame is Some {
                    old(self)@.call_frames.drop_first()
                } else {
                    old(self)@.call_frames
                },
                ..old(self)@
            }),
    {
        self.call_frames.pop()
    }

    /// The oldest news of a contact not taken yet.
    pub fn poll_contact_event(&mut self) -> (event: Option<ContactEvent>)
        requires
            old(self).wf(),
        ensures
            final(self).wf(),
            event is None <==> old(self)@.contact_events.len() == 0,
            event matches Some(e) ==> e@ == old(self)@.contact_events[0],
            final(self)@ == (ClientData {
                contact_events: if event is Some {
                    old(self)@.contact_events.drop_first()
                } else {
                    old(self)@.contact_events
                },
                ..old(self)@
            }),
    {
        self.contact_events.pop()
    }

    /// The public identity of the contact a text stands for.
    fn identity_named(&self, remote_node_id: &str) -> (identity: Option<PublicIdentity>)
        ensures
            match identity {
                Some(i) => {
                    &&& contact_named(self@.contacts, remote_node_id@) is Some
                    &&& contact_named(self@.contacts, remote_node_id@)->0.public_identity == i@
                    &&& i.node_id == bytes::array_with::<32>(i@.node_id)
                },
                None => contact_named(self@.contacts, remote_node_id@) is None,
            },
    {
        let target: NodeId = match bytes::hex_decode(remote_node_id) {
            Some(target) => target,
            None => {
                return None;
            },
        };
        match self.contacts.get(&target) {
            Some(record) => {
                let identity = record.public_identity.clone();
                proof {
                    bytes::lemma_array_with(identity.node_id);
                }
                Some(identity)
            },
            None => None,
        }
    }

    /// Sends a text to a contact, to be delivered with acknowledgement and retries. The bytes
    /// handed out are to be sent to every neighbour.
    pub fn send(&mut self, remote_node_id: &str, text: &str, now_ms: u64) -> (result: (SendOutcome, Option<Outgoing>))
        requires
            old(self).wf(),
            now_ms + MESSAGE_LIFETIME_MS <= u64::MAX,
        ensures
            final(self).wf(),
            result.1 is Some <==> result.0 == SendOutcome::Sent,
            final(self)@ == (ClientData { node: final(self)@.node, ..old(self)@ }),
            result.0 != SendOutcome::Sent ==> final(self)@.node == old(self)@.node,
            match contact_named(old(self)@.contacts, remote_node_id@) {
                None => result.0 == SendOutcome::Failed,
                Some(contact) => if encode_utf8(text@).len() > CHUNK_SIZE {
                    result.0 == SendOutcome::TooLongForReliableText
                } else {
                    match result.1 {
                        Some(outgoing) => text_queued(
                            outgoing,
                            old(self)@.node,
                            final(self)@.node,
                            contact.public_identity,
                            text@,
                            now_ms,
                        ),
                        None => {
                            &&& result.0 == SendOutcome::Failed
                            &&& text_refused(old(self)@.node, contact.public_identity, text@)
                        },
                    }
                },
            },
            old(self)@.node.well_formed() ==> final(self)@.node.well_formed(),
    {
        let recipient = match self.identity_named(remote_node_id) {
            Some(recipient) => recipient,
            None => {
                return (SendOutcome::Failed, None);
            },
        };
        if text.as_bytes().len() > CHUNK_SIZE {
            return (SendOutcome::TooLongForReliableText, None);
        }
        match self.node.send_reliable_text(&recipient, text, now_ms) {
            Ok(outgoing) => (SendOutcome::Sent, Some(outgoing)),
            Err(_) => (SendOutcome::Failed, None),
        }
    }

    /// Starts a file to a contact; `None` where the recipient is not valid or not known.
    pub fn send_file(
        &self,
        remote_node_id: &str,
        data: &[u8],
        file_name: String,
        mime_type: String,
        kind: AttachmentKind,
    ) -> (transfer: Option<OutgoingTransfer>)
        ensures
            transfer is Some <==> contact_named(self@.contacts, remote_node_id@) is Some,
            transfer matches Some(t) ==> node::starts(
                t@,
                chat_with(contact_named(self@.contacts, remote_node_id@)->0.public_identity),
                kind.sent_as(),
                Some(file_name@),
                Some(mime_type@),
                data@,
            ),
    {
        let recipient = match self.identity_named(remote_node_id) {
            Some(recipient) => recipient,
            None => {
                return None;
            },
        };
        Some(
            self.node.send_file(
                &recipient,
                kind.into_content_kind(),
                file_name,
                mime_type,
                data,
            ),
        )
    }

    /// All received messages, the oldest first.
    pub fn chat_history(&self) -> (messages: Vec<ReceivedMessage>)
        ensures
            table::views(messages@) == messages_shown(
                inbox_store::shown(
                    timeline::by_time::<StoredMessage>(self@.node.inbox),
                    self@.node.inbox_key,
                ),
            ),
    {
        show_messages(self.node.inbox_messages())
    }

    /// The newest `limit` messages from one node, the newest first; with a time given, of those
    /// received before it. Nothing for a text that stands for no node.
    pub fn chat_history_page(&self, remote_node_id: &str, before_received_at_ms: Option<u64>, limit: u32) -> (messages: Vec<ReceivedMessage>)
        ensures
            table::views(messages@) == match node_named(remote_node_id@) {
                Some(node_id) => messages_shown(
                    inbox_store::shown(
                        inbox_store::newest(
                            inbox_store::conversation(
                                self@.node.inbox,
                                bytes::array_with::<32>(node_id),
                                before_received_at_ms,
                            ),
                            limit as nat,
                        ),
                        self@.node.inbox_key,
                    ),
                ),
                None => Seq::empty(),
            },
    {
        let peer: NodeId = match bytes::hex_decode(remote_node_id) {
            Some(peer) => peer,
            None => {
                let none: Vec<ReceivedMessage> = Vec::new();
                assert(table::views(none@) =~= Seq::empty());
                return none;
            },
        };
        proof {
            bytes::lemma_array_with(peer);
        }
        show_messages(
            self.node.inbox_messages_for_peer(&peer, before_received_at_ms, limit as usize),
        )
    }

    /// Calls a node: the id of the new call, and the invitation to be sent to every neighbour.
    /// `None` for a text that stands for no node.
    pub fn start_call(&mut self, remote_node_id: &str, video: bool, now_ms: u64) -> (call: Option<(String, Result<Outgoing, NodeError>)>)
        requires
            old(self).wf(),
            now_ms + MESSAGE_LIFETIME_MS <= u64::MAX,
        ensures
            final(self).wf(),
            call is Some <==> node_named(remote_node_id@) is Some,
            final(self)@ == (ClientData { node: final(self)@.node, ..old(self)@ }),
            match call {
                None => final(self)@.node == old(self)@.node,
                Some((id, result)) => exists|call_id: [u8; 16]|
                    {
                        &&& id@ == #[trigger] bytes::hex_text(call_id@)
                        &&& node::call_sent(
                            result,
                            old(self)@.node,
                            final(self)@.node,
                            bytes::array_with::<32>(node_named(remote_node_id@)->0),
                            CallMessageData::Signal(CallSignal::Invite { call_id, video }),
                            now_ms,
                        )
                    },
            },
            old(self)@.node.well_formed() ==> final(self)@.node.well_formed(),
    {
        let target: NodeId = match bytes::hex_decode(remote_node_id) {
            Some(target) => target,
            None => {
                return None;
            },
        };
        proof {
            bytes::lemma_array_with(target);
        }
        let call_id: [u8; 16] = call::random_call_id();
        let sent = self.node.call_invite(target, call_id, video, now_ms);
        let id = bytes::hex_encode(call_id.as_slice());
        assert(id@ == bytes::hex_text(call_id@));
        Some((id, sent))
    }

    /// What accepting a call takes: the node and the signal to send it. `None` where a text
    /// stands for no node or no call.
    pub fn accept_call(&self, remote_node_id: &str, call_id: &str) -> (signal: Option<(NodeId, CallSignal)>)
        ensures
            signal == match target_and_call(remote_node_id@, call_id@) {
                Some((target, call_id)) => Some((target, CallSignal::Accept { call_id })),
                None => None,
            },
    {
        match parse_target_and_call(remote_node_id, call_id) {
            Some((target, call_id)) => Some((target, CallSignal::Accept { call_id })),
            None => None,
        }
    }

    /// What declining a call takes.
    pub fn reject_call(&self, remote_node_id: &str, call_id: &str) -> (signal: Option<(NodeId, CallSignal)>)
        ensures
            signal == match target_and_call(remote_node_id@, call_id@) {
                Some((target, call_id)) => Some((target, CallSignal::Reject { call_id })),
                None => None,
            },
    {
        match parse_target_and_call(remote_node_id, call_id) {
            Some((target, call_id)) => Some((target, CallSignal::Reject { call_id })),
            None => None,
        }
    }

    /// What hanging up takes.
    pub fn end_call(&self, remote_node_id: &str, call_id: &str) -> (signal: Option<(NodeId, CallSignal)>)
        ensures
            signal == match target_and_call(remote_node_id@, call_id@) {
                Some((target, call_id)) => Some((target, CallSignal::End { call_id })),
                None => None,
            },
    {
        match parse_target_and_call(remote_node_id, call_id) {
            Some((target, call_id)) => Some((target, CallSignal::End { call_id })),
            None => None,
        }
    }

    /// Sends a signal to a node, once.
    pub fn send_signal(&mut self, target: NodeId, signal: CallSignal, now_ms: u64) -> (result: Result<Outgoing, NodeError>)
        requires
            old(self).wf(),
            now_ms + MESSAGE_LIFETIME_MS <= u64::MAX,
        ensures
            final(self).wf(),
            final(self)@ == (ClientData { node: final(self)@.node, ..old(self)@ }),
            node::call_sent(
                result,
                old(self)@.node,
                final(self)@.node,
                target,
                CallMessageData::Signal(signal),
                now_ms,
            ),
            old(self)@.node.well_formed() ==> final(self)@.node.well_formed(),
    {
        match signal {
            CallSignal::Accept { call_id } => self.node.call_accept(target, call_id, now_ms),
            CallSignal::Reject { call_id } => self.node.call_reject(target, call_id, now_ms),
            CallSignal::End { call_id } => self.node.call_end(target, call_id, now_ms),
            CallSignal::Invite { call_id, video } => self.node.call_invite(
                target,
                call_id,
                video,
                now_ms,
            ),
        }
    }

    /// Sends one frame of a call; `None` where a text stands for no node or no call.
    pub fn send_call_frame(
        &mut self,
        remote_node_id: &str,
        call_id: &str,
        media: CallMediaKind,
        sequence: u32,
        data: Vec<u8>,
        now_ms: u64,
    ) -> (result: Option<Result<Outgoing, NodeError>>)
        requires
            old(self).wf(),
            now_ms + MESSAGE_LIFETIME_MS <= u64::MAX,
        ensures
            final(self).wf(),
            final(self)@ == (ClientData { node: final(self)@.node, ..old(self)@ }),
            match target_and_call(remote_node_id@, call_id@) {
                None => result is None && final(self)@.node == old(self)@.node,
                Some((target, call)) => result is Some && node::call_sent(
                    result->0,
                    old(self)@.node,
                    final(self)@.node,
                    target,
                    CallMessageData::Frame(
                        CallFrame { call_id: call, media: media.sent_as(), sequence, data }@,
                    ),
                    now_ms,
                ),
            },
            old(self)@.node.well_formed() ==> final(self)@.node.well_formed(),
    {
        match parse_target_and_call(remote_node_id, call_id) {
            Some((target, call_id)) => Some(
                self.node.send_call_frame(
                    target,
                    call_id,
                    media.into_media_kind(),
                    sequence,
                    data,
                    now_ms,
                ),
            ),
            None => None,
        }
    }

    /// Takes note of nodes nearby as contacts; returns whether there was anything to note, and so
    /// whether the contacts are to be stored.
    pub fn update_contact_cache(&mut self, discovered: &Vec<discovery::DiscoveredPeer>, now_ms: u64) -> (changed: bool)
        requires
            old(self).wf(),
        ensures
            final(self).wf(),
            changed == (discovered@.len() > 0),
            final(self)@ == having_met_all(old(self)@, table::views(discovered@), now_ms),
    {
        let ghost peers = table::views(discovered@);
        let ghost before = self@;
        let mut i: usize = 0;
        assert(peers.take(0) =~= Seq::<PeerData>::empty());
        while i < discovered.len()
            invariant
                i <= discovered@.len(),
                peers == table::views(discovered@),
                self.wf(),
                self@ == having_met_all(before, peers.take(i as int), now_ms),
            decreases discovered@.len() - i,
        {
            assert(peers.take(i + 1).drop_last() =~= peers.take(i as int));
            assert(peers.take(i + 1).last() == peers[i as int]);
            assert(peers[i as int] == discovered@[i as int]@);
            self.meet(&discovered[i], now_ms);
            i += 1;
        }
        assert(peers.take(i as int) =~= peers);
        discovered.len() > 0
    }

    /// Takes note of one node as a contact.
    fn meet(&mut self, peer: &discovery::DiscoveredPeer, now_ms: u64)
        requires
            old(self).wf(),
        ensures
            final(self).wf(),
            final(self)@ == (ClientData {
                contacts: contacts_after(old(self)@.contacts, peer@, now_ms),
                contact_events: events_after(
                    old(self)@.contact_events,
                    news_of(old(self)@.contacts, peer@),
                ),
                ..old(self)@
            }),
    {
        let node_id: NodeId = peer.public_identity.node_id;
        let known = match self.contacts.get(&node_id) {
            Some(record) => Some(record.clone()),
            None => None,
        };
        let name = peer.display_name.clone();
        match known {
            Some(mut record) => {
                let changed = !bytes::same(
                    record.public_identity.x25519_public.as_slice(),
                    peer.public_identity.x25519_public.as_slice(),
                );
                record.advertised_name = Some(name);
                record.touch_last_seen(now_ms);
                if changed {
                    record.public_identity = peer.public_identity.clone();
                    record.mark_identity_change_pending();
                }
                self.contacts.insert(record);
                if changed {
                    self.contact_events.push(
                        ContactEvent {
                            full_node_id: bytes::hex_encode(node_id.as_slice()),
                            kind: ContactEventKind::IdentityChanged,
                        },
                    );
                }
            },
            None => {
                self.contacts.insert(
                    ContactRecord::new(peer.public_identity.clone(), Some(name), now_ms),
                );
                self.contact_events.push(
                    ContactEvent {
                        full_node_id: bytes::hex_encode(node_id.as_slice()),
                        kind: ContactEventKind::Discovered,
                    },
                );
            },
        }
    }

    /// Shows nodes nearby and takes note of them as contacts; returns also whether the contacts
    /// are to be stored.
    pub fn discovered_peers(&mut self, discovered: Vec<discovery::DiscoveredPeer>, now_ms: u64) -> (result: (Vec<DiscoveredPeer>, bool))
        requires
            old(self).wf(),
        ensures
            final(self).wf(),
            result.1 == (discovered@.len() > 0),
            table::views(result.0@) == table::views(discovered@).map_values(
                |peer: PeerData| records::peer_shown(peer),
            ),
            final(self)@ == having_met_all(old(self)@, table::views(discovered@), now_ms),
    {
        let changed = self.update_contact_cache(&discovered, now_ms);
        let mut peers: Vec<DiscoveredPeer> = Vec::new();
        let mut i: usize = 0;
        while i < discovered.len()
            invariant
                i <= discovered@.len(),
                peers@.len() == i,
                forall|j: int|
                    0 <= j < i ==> (#[trigger] peers@[j])@ == records::peer_shown(
                        discovered@[j]@,
                    ),
            decreases discovered@.len() - i,
        {
            peers.push(records::to_discovered_peer(discovered[i].clone()));
            i += 1;
        }
        assert(table::views(peers@) =~= table::views(discovered@).map_values(
            |peer: PeerData| records::peer_shown(peer),
        ));
        (peers, changed)
    }

    /// All contacts, nearby or not, in the order in which they were first met.
    pub fn contacts(&self) -> (contacts: Vec<ContactIdentity>)
        ensures
            table::views(contacts@) == self@.contacts.map_values(
                |contact: ContactData| records::contact_shown(contact),
            ),
    {
        let all = self.contacts.all();
        let mut contacts: Vec<ContactIdentity> = Vec::new();
        let mut i: usize = 0;
        while i < all.len()
            invariant
                i <= all@.len(),
                contacts@.len() == i,
                forall|j: int|
                    0 <= j < i ==> (#[trigger] contacts@[j])@ == records::contact_shown(all@[j]@),
            decreases all@.len() - i,
        {
            contacts.push(records::to_contact_identity(&all[i]));
            i += 1;
        }
        assert(table::views(contacts@) =~= self@.contacts.map_values(
            |contact: ContactData| records::contact_shown(contact),
        )) by {
            assert(self@.contacts == table::views(all@));
        }
        contacts
    }

    /// The contact a node has become known as.
    pub fn contact(&self, node_id: &NodeId) -> (record: Option<&ContactRecord>)
        ensures
            record is Some <==> contact_store::record_of(self@.contacts, node_id@) is Some,
            record matches Some(r) ==> contact_store::record_of(self@.contacts, node_id@) == Some(
                r@,
            ),
    {
        self.contacts.get(node_id)
    }

    /// Puts a contact in place of what was known of its node.
    pub fn insert_contact(&mut self, record: ContactRecord)
        requires
            old(self).wf(),
        ensures
            final(self).wf(),
            final(self)@ == (ClientData {
                contacts: contact_store::with_record(old(self)@.contacts, record@),
                ..old(self)@
            }),
    {
        self.contacts.insert(record);
    }

    /// What is to be stored of the contacts.
    pub fn persisted_contacts(&self) -> (file: PersistedStoreV1)
        ensures
            file.schema_version == contact_store::SCHEMA_VERSION,
            table::views(file.contacts@) == contact_store::stored(self@.contacts),
    {
        self.contacts.to_persisted()
    }

    /// Drops the pending warning of a contact, which does not verify it; returns whether there
    /// is such a contact, and so whether the contacts are to be stored.
    pub fn acknowledge_identity_change(&mut self, remote_node_id: &str) -> (known: bool)
        requires
            old(self).wf(),
        ensures
            final(self).wf(),
            known == (contact_named(old(self)@.contacts, remote_node_id@) is Some),
            final(self)@ == (ClientData {
                contacts: match contact_named(old(self)@.contacts, remote_node_id@) {
                    Some(contact) => contact_store::with_record(
                        old(self)@.contacts,
                        contact.with_change_acknowledged(),
                    ),
                    None => old(self)@.contacts,
                },
                ..old(self)@
            }),
    {
        let target: NodeId = match bytes::hex_decode(remote_node_id) {
            Some(target) => target,
            None => {
                return false;
            },
        };
        let known = match self.contacts.get(&target) {
            Some(record) => Some(record.clone()),
            None => None,
        };
        match known {
            Some(mut record) => {
                record.acknowledge_identity_change();
                self.contacts.insert(record);
                true
            },
            None => false,
        }
    }

    /// Removes all contacts; returns how many there were.
    pub fn reset_contacts(&mut self) -> (count: usize)
        requires
            old(self).wf(),
        ensures
            final(self).wf(),
            count == old(self)@.contacts.len(),
            final(self)@ == (ClientData { contacts: Seq::empty(), ..old(self)@ }),
    {
        let count: usize = self.contacts.len();
        self.contacts.clear();
        count
    }
}

// ---------------------------------------------------------------------------------------------
// Laws
// ---------------------------------------------------------------------------------------------

/// Whatever happens, no queue grows beyond its bound.
pub proof fn law_queues_stay_bounded(
    client: ClientData,
    event: EventData,
    progress: TransferProgress,
    direction: TransferDirection,
    peers: Seq<PeerData>,
    now_ms: u64,
)
    requires
        within_bounds(client),
    ensures
        within_bounds(told(client, event)),
        within_bounds(reported(client, progress, direction)),
        within_bounds(having_met_all(client, peers, now_ms)),
    decreases peers.len(),
{
    if peers.len() > 0 {
        law_queues_stay_bounded(client, event, progress, direction, peers.drop_last(), now_ms);
    }
}

/// A known contact with another key is never accepted in silence: its new key is used, its trust
/// is gone, a warning is pending, and the application is told.
pub proof fn law_key_change_is_never_silent(client: ClientData, peer: PeerData, now_ms: u64)
    requires
        within_bounds(client),
        contact_store::record_of(client.contacts, peer.public_identity.node_id) is Some,
        contact_store::record_of(
            client.contacts,
            peer.public_identity.node_id,
        )->0.public_identity.x25519_public != peer.public_identity.x25519_public,
    ensures
        ({
            let after = having_met_all(client, seq![peer], now_ms);
            let contact = contact_store::record_of(after.contacts, peer.public_identity.node_id);
            &&& contact is Some
            &&& contact->0.public_identity == peer.public_identity
            &&& contact->0.verification is Unverified
            &&& contact->0.identity_change_pending
            &&& after.contact_events.len() >= 1
            &&& after.contact_events.last() == ContactNews {
                full_node_id: bytes::hex_text(peer.public_identity.node_id),
                kind: ContactEventKind::IdentityChanged,
            }
        }),
{
    assert(seq![peer].drop_last() =~= Seq::<PeerData>::empty());
    assert(having_met_all(client, Seq::empty(), now_ms) == client);
    let node = peer.public_identity.node_id;
    let contact = contact_store::record_of(client.contacts, node)->0;
    contact_store::law_inserted_record_is_found(
        client.contacts,
        met_again(contact, peer, now_ms),
        node,
    );
    queue::law_latest_item_waits(
        client.contact_events,
        news_of(client.contacts, peer)->0,
        CONTACT_EVENT_CAPACITY as nat,
    );
}

/// A node that was met is a contact, with the key it was met with.
pub proof fn law_met_node_is_a_contact(client: ClientData, peers: Seq<PeerData>, now_ms: u64)
    requires
        peers.len() > 0,
    ensures
        ({
            let after = having_met_all(client, peers, now_ms);
            let met = peers.last().public_identity;
            let contact = contact_store::record_of(after.contacts, met.node_id);
            contact is Some && contact->0.public_identity.x25519_public == met.x25519_public
        }),
{
    let before = having_met_all(client, peers.drop_last(), now_ms).contacts;
    lemma_met(before, peers.last(), now_ms, peers.last().public_identity.node_id);
}

/// What meeting one node does to the record of any node.
proof fn lemma_met(contacts: Seq<ContactData>, peer: PeerData, now_ms: u64, node_id: Seq<u8>)
    ensures
        contact_store::record_of(contacts_after(contacts, peer, now_ms), node_id) == if node_id
            == peer.public_identity.node_id {
            Some(
                match contact_store::record_of(contacts, node_id) {
                    Some(contact) => met_again(contact, peer, now_ms),
                    None => ContactData::first_met(
                        peer.public_identity,
                        Some(peer.display_name),
                        now_ms,
                    ),
                },
            )
        } else {
            contact_store::record_of(contacts, node_id)
        },
{
    let node = peer.public_identity.node_id;
    contact_store::nodes(contacts).index_of_first_ensures(node);
    let record = match contact_store::record_of(contacts, node) {
        Some(contact) => met_again(contact, peer, now_ms),
        None => ContactData::first_met(peer.public_identity, Some(peer.display_name), now_ms),
    };
    contact_store::law_inserted_record_is_found(contacts, record, node_id);
}

/// Discovery leaves to the user what is the user's: whoever is met, a contact is never lost, its
/// alias stays, a pending warning stays pending, and it is never trusted more than before. Its
/// trust is untouched as long as its node shows the key that is known.
pub proof fn law_discovery_respects_the_user(
    client: ClientData,
    peers: Seq<PeerData>,
    now_ms: u64,
    node_id: Seq<u8>,
)
    requires
        contact_store::record_of(client.contacts, node_id) is Some,
    ensures
        ({
            let before = contact_store::record_of(client.contacts, node_id)->0;
            let after = contact_store::record_of(
                having_met_all(client, peers, now_ms).contacts,
                node_id,
            );
            &&& after is Some
            &&& after->0.local_alias == before.local_alias
            &&& after->0.first_seen_ms == before.first_seen_ms
            &&& before.identity_change_pending ==> after->0.identity_change_pending
            &&& after->0.verification is Verified ==> before.verification is Verified
            &&& shows_known_key(peers, before.public_identity) ==> {
                &&& after->0.public_identity == before.public_identity
                &&& after->0.verification == before.verification
                &&& after->0.identity_change_pending == before.identity_change_pending
            }
        }),
    decreases peers.len(),
{
    if peers.len() > 0 {
        let head = peers.drop_last();
        law_discovery_respects_the_user(client, head, now_ms, node_id);
        let before = contact_store::record_of(client.contacts, node_id)->0;
        if shows_known_key(peers, before.public_identity) {
            assert forall|i: int| 0 <= i < head.len() implies #[trigger] same_node_same_key(
                head[i].public_identity,
                before.public_identity,
            ) by {
                assert(same_node_same_key(peers[i].public_identity, before.public_identity));
            }
            assert(same_node_same_key(
                peers[peers.len() - 1].public_identity,
                before.public_identity,
            ));
        }
        contact_store::nodes(client.contacts).index_of_first_ensures(node_id);
        lemma_met(
            having_met_all(client, head, now_ms).contacts,
            peers.last(),
            now_ms,
            node_id,
        );
    }
}

/// Two identities do not give one node two keys.
pub open spec fn same_node_same_key(a: PublicIdentityData, b: PublicIdentityData) -> bool {
    a.node_id == b.node_id ==> a.x25519_public == b.x25519_public
}

/// Wherever a known node was met, it showed the key that is known.
pub open spec fn shows_known_key(peers: Seq<PeerData>, known: PublicIdentityData) -> bool {
    forall|i: int| 0 <= i < peers.len() ==> #[trigger] same_node_same_key(peers[i].public_identity, known)
}

/// Dismissing a warning is not verifying: the contact is trusted as much as before.
pub proof fn law_dismissing_is_not_verifying(contact: ContactData)
    ensures
        contact.with_change_acknowledged().verification == contact.verification,
        !contact.with_change_acknowledged().identity_change_pending,
{
}

/// Whatever news the node has waits for the application: a message, a progress report, news of a
/// call or a frame, each behind what waits of its kind already. Only where as much waits as may,
/// the oldest of its kind is gone. Nothing else changes.
pub proof fn law_news_waits_for_the_application(
    client: ClientData,
    event: EventData,
    progress: TransferProgress,
    direction: TransferDirection,
)
    ensures
        event matches EventData::Content(delivered) ==> told(client, event) == (ClientData {
            inbox: waiting(
                client.inbox,
                records::message_shown(delivered.sender, delivered.message_id, delivered.content),
                500,
            ),
            ..client
        }),
        event matches EventData::Progress(sender, p) ==> told(client, event) == (ClientData {
            progress: waiting(
                client.progress,
                records::progress_shown(p, TransferDirection::Receiving),
                2_000,
            ),
            ..client
        }),
        event matches EventData::Call(sender, CallMessageData::Signal(signal)) ==> told(
            client,
            event,
        ) == (ClientData {
            call_events: waiting(client.call_events, records::signal_shown(sender, signal), 100),
            ..client
        }),
        event matches EventData::Call(sender, CallMessageData::Frame(frame)) ==> told(client, event)
            == (ClientData {
            call_frames: waiting(client.call_frames, records::frame_shown(sender, frame), 500),
            ..client
        }),
        reported(client, progress, direction) == (ClientData {
            progress: waiting(
                client.progress,
                records::progress_shown(progress, direction),
                2_000,
            ),
            ..client
        }),
{
    match event {
        EventData::Content(delivered) => lemma_waiting(
            client.inbox,
            records::message_shown(delivered.sender, delivered.message_id, delivered.content),
            500,
        ),
        EventData::Progress(sender, p) => lemma_waiting(
            client.progress,
            records::progress_shown(p, TransferDirection::Receiving),
            2_000,
        ),
        EventData::Call(sender, CallMessageData::Signal(signal)) => lemma_waiting(
            client.call_events,
            records::signal_shown(sender, signal),
            100,
        ),
        EventData::Call(sender, CallMessageData::Frame(frame)) => lemma_waiting(
            client.call_frames,
            records::frame_shown(sender, frame),
            500,
        ),
    }
    lemma_waiting(client.progress, records::progress_shown(progress, direction), 2_000);
}

/// What waits once one thing more has come: that thing behind all others, without the first of
/// them where there would be too many.
pub open spec fn waiting<V>(items: Seq<V>, item: V, most: nat) -> Seq<V> {
    if items.len() < most {
        items.push(item)
    } else {
        items.push(item).subrange(1, items.len() as int + 1)
    }
}

proof fn lemma_waiting<V>(items: Seq<V>, item: V, most: nat)
    ensures
        waiting(items, item, most) == queue::queued(items, item, most),
{
    assert(waiting(items, item, most) =~= queue::queued(items, item, most));
}

/// What meeting a node does. One that was not known becomes a contact under the name it gives
/// itself, unverified, and the application is told. One that was known has been seen again, under
/// the name it now gives itself, and what else is known of it stays as long as its key is the
/// known one, without any news. No other contact changes, and nothing else.
pub proof fn law_meeting_a_node(client: ClientData, peer: PeerData, now_ms: u64, other: Seq<u8>)
    requires
        other != peer.public_identity.node_id,
    ensures
        ({
            let after = having_met_all(client, seq![peer], now_ms);
            let id = peer.public_identity.node_id;
            let known = contact_store::record_of(client.contacts, id);
            let contact = contact_store::record_of(after.contacts, id);
            &&& contact is Some
            &&& contact->0.public_identity.node_id == id
            &&& contact->0.public_identity.x25519_public == peer.public_identity.x25519_public
            &&& contact->0.advertised_name == Some(peer.display_name)
            &&& contact->0.last_seen_ms == now_ms
            &&& known is None ==> {
                &&& contact->0.public_identity == peer.public_identity
                &&& contact->0.local_alias is None
                &&& contact->0.verification == VerificationState::Unverified
                &&& contact->0.first_seen_ms == now_ms
                &&& !contact->0.identity_change_pending
                &&& after.contact_events == waiting(
                    client.contact_events,
                    ContactNews {
                        full_node_id: bytes::hex_text(id),
                        kind: ContactEventKind::Discovered,
                    },
                    200,
                )
            }
            &&& known is Some && known->0.public_identity.x25519_public
                == peer.public_identity.x25519_public ==> {
                &&& contact->0 == (ContactData {
                    advertised_name: Some(peer.display_name),
                    last_seen_ms: now_ms,
                    ..known->0
                })
                &&& after.contact_events == client.contact_events
            }
            &&& known is Some && known->0.public_identity.x25519_public
                != peer.public_identity.x25519_public ==> {
                &&& contact->0 == (ContactData {
                    public_identity: peer.public_identity,
                    advertised_name: Some(peer.display_name),
                    last_seen_ms: now_ms,
                    verification: VerificationState::Unverified,
                    identity_change_pending: true,
                    ..known->0
                })
                &&& after.contact_events == waiting(
                    client.contact_events,
                    ContactNews {
                        full_node_id: bytes::hex_text(id),
                        kind: ContactEventKind::IdentityChanged,
                    },
                    200,
                )
            }
            &&& contact_store::record_of(after.contacts, other) == contact_store::record_of(
                client.contacts,
                other,
            )
            &&& after == (ClientData {
                contacts: after.contacts,
                contact_events: after.contact_events,
                ..client
            })
        }),
{
    assert(seq![peer].drop_last() =~= Seq::<PeerData>::empty());
    assert(having_met_all(client, Seq::empty(), now_ms) == client);
    let id = peer.public_identity.node_id;
    lemma_met(client.contacts, peer, now_ms, id);
    lemma_met(client.contacts, peer, now_ms, other);
    contact_store::nodes(client.contacts).index_of_first_ensures(id);
    if news_of(client.contacts, peer) is Some {
        lemma_waiting(client.contact_events, news_of(client.contacts, peer)->0, 200);
    }
}

/// Meeting several nodes is meeting them one after the other.
pub proof fn law_nodes_are_met_in_turn(client: ClientData, peers: Seq<PeerData>, now_ms: u64)
    requires
        peers.len() > 0,
    ensures
        having_met_all(client, peers, now_ms) == having_met_all(
            having_met_all(client, peers.drop_last(), now_ms),
            seq![peers.last()],
            now_ms,
        ),
        having_met_all(client, Seq::<PeerData>::empty(), now_ms) == client,
{
    let before = having_met_all(client, peers.drop_last(), now_ms);
    assert(seq![peers.last()].drop_last() =~= Seq::<PeerData>::empty());
    assert(having_met_all(before, Seq::<PeerData>::empty(), now_ms) == before);
}

/// The ids that are shown can be given back: the text of a node's id stands for that node, and so
/// for the contact it is, and the text of a call's id for that call.
pub proof fn law_shown_ids_are_understood(
    contacts: Seq<ContactData>,
    node_id: NodeId,
    call_id: [u8; 16],
)
    ensures
        node_named(bytes::hex_text(node_id@)) == Some(node_id@),
        call_named(bytes::hex_text(call_id@)) == Some(call_id@),
        contact_named(contacts, bytes::hex_text(node_id@)) == contact_store::record_of(
            contacts,
            node_id@,
        ),
        target_and_call(bytes::hex_text(node_id@), bytes::hex_text(call_id@)) == Some(
            (node_id, call_id),
        ),
{
    bytes::law_hex_text_reads_back(node_id@);
    bytes::law_hex_text_reads_back(call_id@);
    bytes::lemma_array_with(node_id);
    bytes::lemma_array_with(call_id);
}

/// Of stored messages each is shown, in the same order, with its content.
pub proof fn law_every_message_is_shown(messages: Seq<InboxData>, i: int)
    requires
        0 <= i < messages.len(),
    ensures
        messages_shown(messages).len() == messages.len(),
        messages_shown(messages)[i].peer_id == bytes::hex_text(messages[i].sender@),
        messages_shown(messages)[i].message_id == bytes::hex_text(messages[i].message_id@),
        messages[i].content matches ContentData::Text(text) ==> {
            &&& messages_shown(messages)[i].text == Some(text)
            &&& messages_shown(messages)[i].attachment is None
        },
        messages[i].content matches ContentData::File { transfer_id, name, mime, kind, data } ==> {
            &&& messages_shown(messages)[i].text is None
            &&& messages_shown(messages)[i].attachment is Some
            &&& messages_shown(messages)[i].attachment->0.name == name
            &&& messages_shown(messages)[i].attachment->0.mime == mime
            &&& messages_shown(messages)[i].attachment->0.data == data
        },
{
}

/// A text that is queued for a contact is on its way to that contact: the bytes are an envelope of
/// the text that the contact can read, and the node keeps them until they are acknowledged.
pub proof fn law_queued_text_is_on_its_way(
    outgoing: Outgoing,
    before: NodeData,
    after: NodeData,
    to: PublicIdentityData,
    text: Seq<char>,
    now_ms: u64,
) -> (transfer_id: [u8; 16])
    requires
        text_queued(outgoing, before, after, to, text, now_ms),
        before.delivery.len() < before.delivery_limit,
        forall|i: int|
            0 <= i < before.delivery.len() ==> (#[trigger] before.delivery[i]).message_id
                != node::envelope_of(outgoing).message_id,
    ensures
        node::sends(
            outgoing,
            before,
            DestinationData::DirectV1(bytes::array_with::<32>(to.node_id), to),
            MessageType::Chat,
            node::text_payload(transfer_id, encode_utf8(text)),
            now_ms,
        ),
        after.delivery.len() == before.delivery.len() + 1,
        after.delivery.drop_last() == before.delivery,
        after.delivery.last().message_id == outgoing.message_id,
        after.delivery.last().recipient == bytes::array_with::<32>(to.node_id),
        after.delivery.last().envelope_bytes == outgoing.bytes@,
        after.delivery.last().expires_at == now_ms + 300_000,
        after.delivery.last().next_attempt_at == now_ms,
{
    let e = node::envelope_of(outgoing);
    crate::delivery_store::law_queued_message_is_kept(
        before.delivery,
        e.message_id,
        bytes::array_with::<32>(to.node_id),
        outgoing.bytes@,
        e.created_at,
        e.expires_at,
        before.delivery_limit,
    );
    choose|transfer_id: [u8; 16]|
        node::sends(
            outgoing,
            before,
            chat_with(to),
            MessageType::Chat,
            #[trigger] node::text_payload(transfer_id, encode_utf8(text)),
            now_ms,
        )
}

} // verus!
