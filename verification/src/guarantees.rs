//! What holds of nodes as a whole: what they ignore, what they never do, and that messages
//! arrive.

use vstd::prelude::*;
use vstd::utf8::*;

use crate::bytes;
use crate::call::{CallMessageData, CallSignal};
use crate::client;
use crate::client::ClientData;
use crate::delivery_store;
use crate::delivery_store::{OutboundData, OutboundState};
use crate::direct_crypto;
use crate::direct_crypto::{DirectCryptoError, DirectMessageAadV1};
use crate::flood_guard;
use crate::identity;
use crate::identity::NodeId;
use crate::inbox_store;
use crate::inbox_store::{InboxError, InsertOutcome, StoredData, StoredMessage};
use crate::message::{
    EncryptionMode, EnvelopeData, MessageType, CLOCK_SKEW_TOLERANCE_MS, PROTOCOL_VERSION,
};
use crate::node;
use crate::node::{
    DeliveredData, DestinationData, EventData, IncomingData, LocalData, NodeData, Outgoing, PendingData,
    RelayData, SettledData, MAX_ENVELOPE_BYTES, MESSAGE_LIFETIME_MS,
};
use crate::payload;
use crate::payload::{
    ChunkData, ContentData, ContentKind, DeliveryAck, PayloadData, TransferProgress, CHUNK_SIZE,
};
use crate::primitives;
use crate::reassembly;
use crate::reassembly::{AcceptedData, TransferData};
use crate::records;
use crate::records::{AttachmentKind, CallEventKind, CallMediaKind};
use crate::replay_store;
use crate::session;
use crate::session::PublicIdentityData;
use crate::table;
use crate::timeline;
use crate::wire;

verus! {

/// The node after it has received a packet.
pub open spec fn node_after(n: NodeData, raw: Seq<u8>, now_ms: u64, uptime_ms: u64) -> NodeData {
    match node::received(n, raw, now_ms, uptime_ms) {
        Some((after, incoming)) => after,
        None => n,
    }
}

/// What is to be done about a packet the node has received.
pub open spec fn response(n: NodeData, raw: Seq<u8>, now_ms: u64, uptime_ms: u64) -> IncomingData {
    match node::received(n, raw, now_ms, uptime_ms) {
        Some((after, incoming)) => incoming,
        None => node::ignored(),
    }
}

// ---------------------------------------------------------------------------------------------
// What a node ignores
// ---------------------------------------------------------------------------------------------

/// A packet that was not signed by the sender it names leaves no trace: nothing is recorded, so
/// no forgery can make a later, genuine message look like a duplicate.
pub proof fn law_forgeries_leave_no_trace(
    n: NodeData,
    raw: Seq<u8>,
    e: EnvelopeData,
    now_ms: u64,
    uptime_ms: u64,
)
    requires
        wire::envelope_in(raw) == Some(e),
        !node::authentic(e),
    ensures
        node::received(n, raw, now_ms, uptime_ms) == Some((n, node::ignored())),
{
}

/// Oversized packets and packets of another protocol version are ignored.
pub proof fn law_foreign_packets_are_ignored(n: NodeData, raw: Seq<u8>, now_ms: u64, uptime_ms: u64)
    requires
        raw.len() > MAX_ENVELOPE_BYTES || (wire::envelope_in(raw) is Some && wire::envelope_in(
            raw,
        )->0.protocol_version != PROTOCOL_VERSION),
    ensures
        node::received(n, raw, now_ms, uptime_ms) == Some((n, node::ignored())),
{
}

/// A message that has been handled is never handled again: nothing changes, nothing is handed on
/// and nothing is shown. At most its acknowledgement is sent once more.
pub proof fn law_handled_messages_stay_handled(
    n: NodeData,
    raw: Seq<u8>,
    e: EnvelopeData,
    now_ms: u64,
    uptime_ms: u64,
)
    requires
        wire::envelope_in(raw) == Some(e),
        e.message_type != MessageType::CallFrame,
        replay_store::has_seen(n.replay, e.sender, e.message_id),
    ensures
        node::received(n, raw, now_ms, uptime_ms) is Some,
        node_after(n, raw, now_ms, uptime_ms) == n,
        response(n, raw, now_ms, uptime_ms).relay is Nothing,
        response(n, raw, now_ms, uptime_ms).local is Nothing || response(n, raw, now_ms, uptime_ms).local is Acknowledge,
{
}

/// A message that has expired is neither handed on nor read.
pub proof fn law_expired_messages_are_dropped(
    n: NodeData,
    raw: Seq<u8>,
    e: EnvelopeData,
    now_ms: u64,
    uptime_ms: u64,
)
    requires
        wire::envelope_in(raw) == Some(e),
        e.expired_at(now_ms),
    ensures
        node::received(n, raw, now_ms, uptime_ms) is Some,
        response(n, raw, now_ms, uptime_ms).relay is Nothing,
        !(response(n, raw, now_ms, uptime_ms).local is Event),
        !(response(n, raw, now_ms, uptime_ms).local is Store),
{
}

// ---------------------------------------------------------------------------------------------
// What a node never does
// ---------------------------------------------------------------------------------------------

/// Flooding ends: a packet whose hops are used up is not handed on, and each time one is handed
/// on a hop is used.
pub proof fn law_hop_budget_is_kept(
    n: NodeData,
    raw: Seq<u8>,
    e: EnvelopeData,
    now_ms: u64,
    uptime_ms: u64,
)
    requires
        wire::envelope_in(raw) == Some(e),
        node::received(n, raw, now_ms, uptime_ms) is Some,
    ensures
        e.out_of_hops() ==> response(n, raw, now_ms, uptime_ms).relay is Nothing,
        !e.out_of_hops() ==> e.relayed().hops_used == e.hops_used + 1 && e.relayed().hops_used
            <= e.relayed().max_hops,
{
}

/// A copy that is handed on says what the envelope said, and is as authentic.
pub proof fn law_relayed_copy_is_as_authentic(e: EnvelopeData)
    ensures
        node::authentic(e.relayed()) <==> node::authentic(e),
        (EnvelopeData { hops_used: e.hops_used, ..e.relayed() }) == e,
{
    crate::message::law_hop_count_is_not_signed(e, (e.hops_used + 1) as u8);
}

/// A node never reads, shows, stores or acknowledges what is for someone else; it hands it on,
/// and of its own state at most the memory of packets met changes.
pub proof fn law_relays_do_not_read(
    n: NodeData,
    raw: Seq<u8>,
    e: EnvelopeData,
    now_ms: u64,
    uptime_ms: u64,
)
    requires
        wire::envelope_in(raw) == Some(e),
        node::for_someone_else(e, n.id),
        node::received(n, raw, now_ms, uptime_ms) is Some,
    ensures
        response(n, raw, now_ms, uptime_ms).local is Nothing,
        node_after(n, raw, now_ms, uptime_ms) == n || node_after(n, raw, now_ms, uptime_ms)
            == n.having_met(e.sender, e.message_id),
{
}

/// An acknowledgement means stored. On receipt only a message handled before is acknowledged;
/// any other only once it is in the store. Content that could not be stored is not acknowledged,
/// not shown and not recorded as handled, so the sender's next attempt finds the node as it was.
pub proof fn law_acknowledged_means_stored(
    n: NodeData,
    raw: Seq<u8>,
    now_ms: u64,
    uptime_ms: u64,
    pending: PendingData,
    outcome: Result<InsertOutcome, InboxError>,
)
    ensures
        node::received(n, raw, now_ms, uptime_ms) matches Some((after, incoming)) && incoming.local is Acknowledge
            ==> {
            &&& wire::envelope_in(raw) is Some
            &&& wire::envelope_in(raw)->0.recipient == Some(n.id)
            &&& replay_store::has_seen(
                n.replay,
                wire::envelope_in(raw)->0.sender,
                wire::envelope_in(raw)->0.message_id,
            )
        },
        node::settled(n, pending, outcome, now_ms).1.acknowledge is Some ==> outcome is Ok,
        outcome is Err ==> node::settled(n, pending, outcome, now_ms) == (
            n,
            SettledData { acknowledge: None, event: None },
        ),
        node::settled(n, pending, outcome, now_ms).1.event is Some ==> outcome == Ok::<
            InsertOutcome,
            InboxError,
        >(InsertOutcome::Inserted),
{
}

/// Decrypting a chat message does not make it handled: until its content has been stored, the
/// record of handled messages stays as it was.
pub proof fn law_chat_is_not_handled_before_it_is_stored(
    n: NodeData,
    raw: Seq<u8>,
    e: EnvelopeData,
    now_ms: u64,
    uptime_ms: u64,
)
    requires
        wire::envelope_in(raw) == Some(e),
        e.message_type == MessageType::Chat,
        node::received(n, raw, now_ms, uptime_ms) is Some,
    ensures
        node_after(n, raw, now_ms, uptime_ms).replay == n.replay,
{
}

// ---------------------------------------------------------------------------------------------
// What comes of a node's own messages
// ---------------------------------------------------------------------------------------------

/// A message of the node's own that comes back is recognised: it is neither sent round again nor
/// shown. The clock must not have run backwards, and the id must be a fresh one.
pub proof fn law_own_messages_are_recognised(
    n: NodeData,
    raw: Seq<u8>,
    e: EnvelopeData,
    now_ms: u64,
    uptime_ms: u64,
)
    requires
        wire::envelope_in(raw) == Some(e),
        n.replay_limit >= 1,
        n.replay.len() <= n.replay_limit,
        !replay_store::has_seen(n.replay, e.sender, e.message_id),
        forall|i: int|
            0 <= i < n.replay.len() ==> (#[trigger] n.replay[i]).first_seen_at <= e.created_at,
        n.flood_limit >= 1,
        n.flood.len() <= n.flood_limit,
    ensures
        node::received(node::having_sent(n, e), raw, now_ms, uptime_ms) is Some,
        node_after(node::having_sent(n, e), raw, now_ms, uptime_ms) == node::having_sent(n, e),
        response(node::having_sent(n, e), raw, now_ms, uptime_ms).relay is Nothing,
        !(response(node::having_sent(n, e), raw, now_ms, uptime_ms).local is Event),
        !(response(node::having_sent(n, e), raw, now_ms, uptime_ms).local is Store),
{
    replay_store::law_marked_message_is_a_replay(
        n.replay,
        e.sender,
        e.message_id,
        e.created_at,
        e.expires_at,
        n.replay_limit,
    );
    flood_guard::law_met_again_is_not_new(n.flood, (e.sender, e.message_id), n.flood_limit);
}

// ---------------------------------------------------------------------------------------------
// Messages arrive
// ---------------------------------------------------------------------------------------------

/// A packet is an envelope that was sent, after some number of hops, and arrives in time. What is
/// larger than an envelope may be is dropped wherever it comes by.
pub open spec fn comes_in(outgoing: Outgoing, sent_at: u64, hops: u8, raw: Seq<u8>, now_ms: u64) -> bool {
    &&& wire::envelope_in(raw) == Some(
        EnvelopeData { hops_used: hops, ..node::envelope_of(outgoing) },
    )
    &&& raw.len() <= MAX_ENVELOPE_BYTES
    &&& now_ms <= sent_at + MESSAGE_LIFETIME_MS + CLOCK_SKEW_TOLERANCE_MS
}

/// A node is one a message is meant for: the one it was encrypted for, the one it names, or any
/// on the channel. A node does not write to itself.
pub open spec fn is_for(destination: DestinationData, sender: NodeData, recipient: NodeData) -> bool {
    match destination {
        DestinationData::DirectV1(id, to) => {
            &&& id == recipient.id
            &&& to == session::public_identity_of(recipient.seed)
            &&& recipient.id@ == primitives::ed25519_public(recipient.seed)
            &&& identity::x25519_secret_of(recipient.seed).len() == 32
            &&& sender.id != recipient.id
        },
        DestinationData::ChannelDirect(id) => {
            &&& id == recipient.id
            &&& sender.channel_key == recipient.channel_key
        },
        DestinationData::Broadcast => sender.channel_key == recipient.channel_key,
    }
}

/// The identity a recipient is shown of the sender: that of a direct message, none otherwise.
pub open spec fn identity_shown(destination: DestinationData, sender: NodeData) -> Option<PublicIdentityData> {
    if destination is DirectV1 {
        Some(session::public_identity_of(sender.seed))
    } else {
        None
    }
}

/// The message is new to a node.
pub open spec fn is_new(message_type: MessageType, n: NodeData, sender: NodeId, message_id: [u8; 16]) -> bool {
    if message_type == MessageType::CallFrame {
        !n.flood.contains((sender, message_id))
    } else {
        !replay_store::has_seen(n.replay, sender, message_id)
    }
}

/// The node when it takes in the payload of a new envelope: frames are remembered as met, chat is
/// not handled before it has been stored, and the rest is.
pub open spec fn taking_in(n: NodeData, e: EnvelopeData, now_ms: u64) -> NodeData {
    match e.message_type {
        MessageType::CallFrame => n.having_met(e.sender, e.message_id),
        MessageType::Chat => n,
        _ => n.having_handled(e.sender, e.message_id, now_ms, e.expires_at),
    }
}

/// What was sent is read. Whatever a node sends, every node it is meant for takes in the very
/// payload, with the sender's identity where the message was direct, however many relays have
/// handed it on in between. It has to arrive in time and for the first time.
pub proof fn law_payload_is_read(
    sender: NodeData,
    recipient: NodeData,
    destination: DestinationData,
    message_type: MessageType,
    payload: PayloadData,
    outgoing: Outgoing,
    sent_at: u64,
    hops: u8,
    raw: Seq<u8>,
    now_ms: u64,
    uptime_ms: u64,
)
    requires
        node::sends(outgoing, sender, destination, message_type, payload, sent_at),
        is_for(destination, sender, recipient),
        comes_in(outgoing, sent_at, hops, raw, now_ms),
        is_new(message_type, recipient, sender.id, node::envelope_of(outgoing).message_id),
    ensures
        node::received(recipient, raw, now_ms, uptime_ms) is Some,
        ({
            let e = EnvelopeData { hops_used: hops, ..node::envelope_of(outgoing) };
            (
                node_after(recipient, raw, now_ms, uptime_ms),
                response(recipient, raw, now_ms, uptime_ms).local,
            ) == node::taken_in(
                taking_in(recipient, e, now_ms),
                e,
                payload,
                identity_shown(destination, sender),
                uptime_ms,
            )
        }),
{
    let sent = node::envelope_of(outgoing);
    let e = EnvelopeData { hops_used: hops, ..sent };
    crate::message::law_hop_count_is_not_signed(sent, hops);
    crate::bytes::lemma_array_ext(sender.id, recipient.id);
    assert(node::readable(sent, sender, destination, payload));
    assert(node::read_by(recipient.id, recipient.seed, recipient.channel_key, sent) == Some(
        (payload, identity_shown(destination, sender)),
    ));
    assert(node::aad_of(e, recipient.id) == node::aad_of(sent, recipient.id));
    assert(node::read_by(recipient.id, recipient.seed, recipient.channel_key, e) == node::read_by(
        recipient.id,
        recipient.seed,
        recipient.channel_key,
        sent,
    ));
    assert(node::authentic(e));
    assert(!node::for_someone_else(e, recipient.id));
}

/// The content of a short text.
proof fn lemma_text_content(
    transfers: Seq<TransferData>,
    transfer_id: [u8; 16],
    text: Seq<char>,
    uptime_ms: u64,
)
    requires
        encode_utf8(text).len() <= CHUNK_SIZE,
        reassembly::transfer_position(reassembly::swept(transfers, uptime_ms), transfer_id) is None,
    ensures
        ({
            let chunk = payload::chunks_of(
                transfer_id,
                ContentKind::Text,
                None,
                None,
                encode_utf8(text),
            )[0];
            &&& node::text_payload(transfer_id, encode_utf8(text)) == PayloadData::Chunk(chunk)
            &&& reassembly::accepted(transfers, chunk, uptime_ms).1
                == reassembly::AcceptedData::Complete(ContentData::Text(text))
        }),
{
    let whole = TransferData {
        transfer_id,
        chunk_count: 1,
        kind: ContentKind::Text,
        file_name: None,
        mime_type: None,
        received: Map::empty(),
        last_seen_ms: 0,
    };
    reassembly::law_single_chunk_completes_at_once(transfers, whole, encode_utf8(text), uptime_ms);
    reassembly::law_text_survives(text);
}

/// The envelope of a short text is never too large.
proof fn lemma_text_fits(
    sender: NodeData,
    destination: DestinationData,
    transfer_id: [u8; 16],
    text: Seq<char>,
    outgoing: Outgoing,
    sent_at: u64,
)
    requires
        encode_utf8(text).len() <= CHUNK_SIZE,
        node::sends(
            outgoing,
            sender,
            destination,
            MessageType::Chat,
            node::text_payload(transfer_id, encode_utf8(text)),
            sent_at,
        ),
    ensures
        outgoing.bytes@.len() <= MAX_ENVELOPE_BYTES,
{
    let data = encode_utf8(text);
    assert(payload::piece(data, 0).len() <= CHUNK_SIZE);
    assert(wire::payload_len(node::text_payload(transfer_id, data)) <= 42 + CHUNK_SIZE);
}

/// A short text arrives. What one node sends, every node it is meant for takes in and stores as
/// the same text from the same sender: the recipient of a direct text, with the sender's identity
/// to acknowledge to, and everyone on the channel for a broadcast one. Relays may have handed it
/// on in between. It has to arrive in time and for the first time.
pub proof fn law_text_arrives(
    sender: NodeData,
    recipient: NodeData,
    destination: DestinationData,
    outgoing: Outgoing,
    transfer_id: [u8; 16],
    text: Seq<char>,
    sent_at: u64,
    hops: u8,
    raw: Seq<u8>,
    now_ms: u64,
    uptime_ms: u64,
)
    requires
        encode_utf8(text).len() <= CHUNK_SIZE,
        node::sends(
            outgoing,
            sender,
            destination,
            MessageType::Chat,
            node::text_payload(transfer_id, encode_utf8(text)),
            sent_at,
        ),
        is_for(destination, sender, recipient),
        wire::envelope_in(raw) == Some(
            EnvelopeData { hops_used: hops, ..node::envelope_of(outgoing) },
        ),
        raw.len() == outgoing.bytes@.len(),
        now_ms <= sent_at + MESSAGE_LIFETIME_MS + CLOCK_SKEW_TOLERANCE_MS,
        !replay_store::has_seen(
            recipient.replay,
            sender.id,
            node::envelope_of(outgoing).message_id,
        ),
        reassembly::transfer_position(
            reassembly::swept(recipient.transfers, uptime_ms),
            transfer_id,
        ) is None,
    ensures
        node::received(recipient, raw, now_ms, uptime_ms) is Some,
        response(recipient, raw, now_ms, uptime_ms).local == LocalData::Store(
            PendingData {
                sender: sender.id,
                sender_identity: identity_shown(destination, sender),
                message_id: node::envelope_of(outgoing).message_id,
                expires_at: node::envelope_of(outgoing).expires_at,
                content: ContentData::Text(text),
            },
        ),
{
    lemma_text_content(recipient.transfers, transfer_id, text, uptime_ms);
    lemma_text_fits(sender, destination, transfer_id, text, outgoing, sent_at);
    law_payload_is_read(
        sender,
        recipient,
        destination,
        MessageType::Chat,
        node::text_payload(transfer_id, encode_utf8(text)),
        outgoing,
        sent_at,
        hops,
        raw,
        now_ms,
        uptime_ms,
    );
}

/// One chunk of a transfer: by whom and when it was sent, and how and when it arrives.
pub struct Arrival {
    pub sender: NodeData,
    pub outgoing: Outgoing,
    pub index: int,
    pub sent_at: u64,
    pub hops: u8,
    pub raw: Seq<u8>,
    pub now_ms: u64,
    pub uptime_ms: u64,
}

/// The node after the chunks of a transfer have come in.
pub open spec fn node_through(n: NodeData, arrivals: Seq<Arrival>) -> NodeData
    decreases arrivals.len(),
{
    if arrivals.len() == 0 {
        n
    } else {
        node_after(
            node_through(n, arrivals.drop_last()),
            arrivals.last().raw,
            arrivals.last().now_ms,
            arrivals.last().uptime_ms,
        )
    }
}

/// What the chunks that come in are to the reassembly.
pub open spec fn stream_of(arrivals: Seq<Arrival>, whole: TransferData, data: Seq<u8>) -> Seq<(ChunkData, u64)> {
    arrivals.map_values(
        |a: Arrival| (reassembly::chunk_of(whole, data, a.index), a.uptime_ms),
    )
}

/// A chunk of the transfer of `data` that `whole` describes, from `sender`, comes in at one of
/// those it is meant for.
pub open spec fn chunk_comes_in(
    a: Arrival,
    sender: NodeData,
    recipient: NodeData,
    destination: DestinationData,
    whole: TransferData,
    data: Seq<u8>,
) -> bool {
    &&& a.sender.id == sender.id
    &&& a.sender.seed == sender.seed
    &&& a.sender.channel_key == sender.channel_key
    &&& 0 <= a.index < payload::chunks_needed(data.len())
    &&& node::sends(
        a.outgoing,
        a.sender,
        destination,
        MessageType::Chat,
        PayloadData::Chunk(reassembly::chunk_of(whole, data, a.index)),
        a.sent_at,
    )
    &&& comes_in(a.outgoing, a.sent_at, a.hops, a.raw, a.now_ms)
    &&& !replay_store::has_seen(
        recipient.replay,
        sender.id,
        node::envelope_of(a.outgoing).message_id,
    )
}

proof fn lemma_chunks_come_in(
    sender: NodeData,
    recipient: NodeData,
    destination: DestinationData,
    whole: TransferData,
    data: Seq<u8>,
    arrivals: Seq<Arrival>,
)
    requires
        is_for(destination, sender, recipient),
        forall|i: int|
            0 <= i < arrivals.len() ==> chunk_comes_in(
                #[trigger] arrivals[i],
                sender,
                recipient,
                destination,
                whole,
                data,
            ),
    ensures
        node_through(recipient, arrivals) == (NodeData {
            transfers: reassembly::fed(recipient.transfers, stream_of(arrivals, whole, data)),
            ..recipient
        }),
    decreases arrivals.len(),
{
    if arrivals.len() > 0 {
        let head = arrivals.drop_last();
        let a = arrivals.last();
        assert(a == arrivals[arrivals.len() - 1]);
        assert forall|i: int| 0 <= i < head.len() implies chunk_comes_in(
            #[trigger] head[i],
            sender,
            recipient,
            destination,
            whole,
            data,
        ) by {
            assert(head[i] == arrivals[i]);
        }
        lemma_chunks_come_in(sender, recipient, destination, whole, data, head);
        let before = node_through(recipient, head);
        assert(stream_of(arrivals, whole, data).drop_last() =~= stream_of(head, whole, data));
        law_payload_is_read(
            a.sender,
            before,
            destination,
            MessageType::Chat,
            PayloadData::Chunk(reassembly::chunk_of(whole, data, a.index)),
            a.outgoing,
            a.sent_at,
            a.hops,
            a.raw,
            a.now_ms,
            a.uptime_ms,
        );
    }
}

/// A file or a long text arrives. Its chunks may come in any order and more than once: the one
/// that was still missing makes the recipient store the content as it was sent, from the same
/// sender, and until then each only tells how far the transfer has come. No chunk may be too late
/// or too large, and the transfer must not fall silent for too long or be crowded out.
pub proof fn law_transfer_arrives(
    sender: NodeData,
    recipient: NodeData,
    destination: DestinationData,
    whole: TransferData,
    data: Seq<u8>,
    arrivals: Seq<Arrival>,
)
    requires
        is_for(destination, sender, recipient),
        payload::chunks_needed(data.len()) <= u32::MAX,
        arrivals.len() > 0,
        forall|i: int|
            0 <= i < arrivals.len() ==> chunk_comes_in(
                #[trigger] arrivals[i],
                sender,
                recipient,
                destination,
                whole,
                data,
            ),
        reassembly::transfer_position(recipient.transfers, whole.transfer_id) is None,
        reassembly::carries(
            recipient.transfers,
            stream_of(arrivals, whole, data),
            whole,
            data,
        ),
        !reassembly::all_arrived(
            stream_of(arrivals.drop_last(), whole, data),
            whole.transfer_id,
            payload::chunks_needed(data.len()),
        ),
    ensures
        ({
            let last = arrivals.last();
            let e = node::envelope_of(last.outgoing);
            let n = payload::chunks_needed(data.len());
            let stream = stream_of(arrivals, whole, data);
            response(
                node_through(recipient, arrivals.drop_last()),
                last.raw,
                last.now_ms,
                last.uptime_ms,
            ).local == if reassembly::all_arrived(stream, whole.transfer_id, n) {
                LocalData::Store(
                    PendingData {
                        sender: sender.id,
                        sender_identity: identity_shown(destination, sender),
                        message_id: e.message_id,
                        expires_at: e.expires_at,
                        content: reassembly::content_of(
                            whole.transfer_id,
                            whole.kind,
                            whole.file_name,
                            whole.mime_type,
                            data,
                        ),
                    },
                )
            } else {
                LocalData::Event(
                    EventData::Progress(
                        sender.id,
                        TransferProgress {
                            transfer_id: whole.transfer_id,
                            kind: whole.kind,
                            done_chunks: reassembly::arrived(stream, whole.transfer_id, n).len() as u32,
                            total_chunks: n as u32,
                        },
                    ),
                )
            }
        }),
{
    let head = arrivals.drop_last();
    let last = arrivals.last();
    let stream = stream_of(arrivals, whole, data);
    assert(last == arrivals[arrivals.len() - 1]);
    assert forall|i: int| 0 <= i < head.len() implies chunk_comes_in(
        #[trigger] head[i],
        sender,
        recipient,
        destination,
        whole,
        data,
    ) by {
        assert(head[i] == arrivals[i]);
    }
    lemma_chunks_come_in(sender, recipient, destination, whole, data, head);
    assert(stream.drop_last() =~= stream_of(head, whole, data));
    reassembly::law_transfer_arrives(recipient.transfers, stream, whole, data);
    law_payload_is_read(
        last.sender,
        node_through(recipient, head),
        destination,
        MessageType::Chat,
        PayloadData::Chunk(reassembly::chunk_of(whole, data, last.index)),
        last.outgoing,
        last.sent_at,
        last.hops,
        last.raw,
        last.now_ms,
        last.uptime_ms,
    );
}

/// A call message arrives: the node that is called learns of the signal or gets the frame, as it
/// was sent and from whom.
pub proof fn law_call_message_arrives(
    sender: NodeData,
    recipient: NodeData,
    message: CallMessageData,
    outgoing: Outgoing,
    sent_at: u64,
    hops: u8,
    raw: Seq<u8>,
    now_ms: u64,
    uptime_ms: u64,
)
    requires
        sender.channel_key == recipient.channel_key,
        node::sends(
            outgoing,
            sender,
            DestinationData::ChannelDirect(recipient.id),
            if message is Frame {
                MessageType::CallFrame
            } else {
                MessageType::CallSignal
            },
            PayloadData::Call(message),
            sent_at,
        ),
        comes_in(outgoing, sent_at, hops, raw, now_ms),
        is_new(
            node::envelope_of(outgoing).message_type,
            recipient,
            sender.id,
            node::envelope_of(outgoing).message_id,
        ),
    ensures
        node::received(recipient, raw, now_ms, uptime_ms) is Some,
        response(recipient, raw, now_ms, uptime_ms).local == LocalData::Event(
            EventData::Call(sender.id, message),
        ),
{
    law_payload_is_read(
        sender,
        recipient,
        DestinationData::ChannelDirect(recipient.id),
        node::envelope_of(outgoing).message_type,
        PayloadData::Call(message),
        outgoing,
        sent_at,
        hops,
        raw,
        now_ms,
        uptime_ms,
    );
}

/// An acknowledgement settles the message it is for. When the recipient's acknowledgement
/// reaches the sender, the sender's record of that message is settled, and no other.
pub proof fn law_acknowledgement_settles_the_message(
    sender: NodeData,
    recipient: NodeData,
    outgoing: Outgoing,
    message_id: [u8; 16],
    sent_at: u64,
    hops: u8,
    raw: Seq<u8>,
    now_ms: u64,
    uptime_ms: u64,
)
    requires
        node::sends(
            outgoing,
            recipient,
            DestinationData::DirectV1(sender.id, session::public_identity_of(sender.seed)),
            MessageType::DeliveryAck,
            PayloadData::DeliveryAck(DeliveryAck { acked_message_id: message_id }),
            sent_at,
        ),
        is_for(
            DestinationData::DirectV1(sender.id, session::public_identity_of(sender.seed)),
            recipient,
            sender,
        ),
        wire::envelope_in(raw) == Some(
            EnvelopeData { hops_used: hops, ..node::envelope_of(outgoing) },
        ),
        raw.len() == outgoing.bytes@.len(),
        now_ms <= sent_at + MESSAGE_LIFETIME_MS + CLOCK_SKEW_TOLERANCE_MS,
        !replay_store::has_seen(
            sender.replay,
            recipient.id,
            node::envelope_of(outgoing).message_id,
        ),
    ensures
        node::received(sender, raw, now_ms, uptime_ms) is Some,
        node_after(sender, raw, now_ms, uptime_ms).delivery == delivery_store::acknowledged(
            sender.delivery,
            message_id,
            recipient.id,
        ),
        response(sender, raw, now_ms, uptime_ms).local is Nothing,
{
    let payload = PayloadData::DeliveryAck(DeliveryAck { acked_message_id: message_id });
    assert(wire::payload_len(payload) == 20);
    assert(raw.len() <= MAX_ENVELOPE_BYTES);
    law_payload_is_read(
        recipient,
        sender,
        DestinationData::DirectV1(sender.id, session::public_identity_of(sender.seed)),
        MessageType::DeliveryAck,
        payload,
        outgoing,
        sent_at,
        hops,
        raw,
        now_ms,
        uptime_ms,
    );
}

// ---------------------------------------------------------------------------------------------
// A message that comes again
// ---------------------------------------------------------------------------------------------

/// A direct message that has been stored and comes again is acknowledged again, to the same
/// sender, and nothing else happens: it is neither shown nor stored nor handed on. That holds of
/// the node that has stored it, and of `later`, which may be the same node at a later time or one
/// restarted with the same identity and the same record of handled messages. The clock must not
/// have run backwards when the message was stored.
pub proof fn law_stored_message_is_acknowledged_again(
    sender: NodeData,
    recipient: NodeData,
    later: NodeData,
    payload: PayloadData,
    pending: PendingData,
    outgoing: Outgoing,
    sent_at: u64,
    stored_at: u64,
    hops: u8,
    raw: Seq<u8>,
    now_ms: u64,
    uptime_ms: u64,
)
    requires
        node::sends(
            outgoing,
            sender,
            DestinationData::DirectV1(recipient.id, session::public_identity_of(recipient.seed)),
            MessageType::Chat,
            payload,
            sent_at,
        ),
        is_for(
            DestinationData::DirectV1(recipient.id, session::public_identity_of(recipient.seed)),
            sender,
            recipient,
        ),
        pending.sender == sender.id,
        pending.message_id == node::envelope_of(outgoing).message_id,
        recipient.replay_limit >= 1,
        recipient.replay.len() <= recipient.replay_limit,
        !replay_store::has_seen(recipient.replay, sender.id, pending.message_id),
        forall|i: int|
            0 <= i < recipient.replay.len() ==> (#[trigger] recipient.replay[i]).first_seen_at
                <= stored_at,
        later.id == recipient.id,
        later.replay == node::settled(
            recipient,
            pending,
            Ok(InsertOutcome::Inserted),
            stored_at,
        ).0.replay,
        wire::envelope_in(raw) == Some(
            EnvelopeData { hops_used: hops, ..node::envelope_of(outgoing) },
        ),
        raw.len() <= MAX_ENVELOPE_BYTES,
    ensures
        node::received(later, raw, now_ms, uptime_ms) == Some(
            (
                later,
                IncomingData {
                    relay: RelayData::Nothing,
                    local: LocalData::Acknowledge(
                        session::public_identity_of(sender.seed),
                        pending.message_id,
                    ),
                },
            ),
        ),
{
    let sent = node::envelope_of(outgoing);
    let e = EnvelopeData { hops_used: hops, ..sent };
    let to = DestinationData::DirectV1(
        recipient.id,
        session::public_identity_of(recipient.seed),
    );
    crate::message::law_hop_count_is_not_signed(sent, hops);
    replay_store::law_marked_message_is_a_replay(
        recipient.replay,
        sender.id,
        pending.message_id,
        stored_at,
        pending.expires_at,
        recipient.replay_limit,
    );
    crate::bytes::lemma_array_ext(sender.id, recipient.id);
    assert(node::readable(sent, sender, to, payload));
    assert(node::read_by(recipient.id, recipient.seed, recipient.channel_key, sent) == Some(
        (payload, Some(session::public_identity_of(sender.seed))),
    ));
    assert(node::acknowledged_again(e, later.id) == Some(
        session::public_identity_of(sender.seed),
    ));
    assert(node::authentic(e));
}

/// A message that is in the inbox is never shown twice. Where the record of handled messages has
/// been lost and it is read once more, storing it finds it there: it is acknowledged, nothing is
/// shown, and the inbox stays as it was.
pub proof fn law_known_message_is_not_shown_again(
    n: NodeData,
    pending: PendingData,
    inbox: Seq<StoredData>,
    outcome: Result<InsertOutcome, InboxError>,
    now_ms: u64,
)
    requires
        inbox_store::has_message(n.inbox, pending.sender, pending.message_id),
        n.inbox.len() <= n.inbox_limit,
        wire::content_len(pending.content) <= primitives::MAX_PLAINTEXT_LEN,
        node::content_stored(n, inbox, outcome, pending, now_ms),
    ensures
        inbox == n.inbox,
        node::settled(n, pending, outcome, now_ms) == (
            n,
            SettledData {
                acknowledge: match pending.sender_identity {
                    Some(to) => Some((to, pending.message_id)),
                    None => None,
                },
                event: None,
            },
        ),
{
}

// ---------------------------------------------------------------------------------------------
// Packets are handed on
// ---------------------------------------------------------------------------------------------

/// The bytes that are handed on; none where nothing is.
pub open spec fn bytes_handed_on(relay: RelayData) -> Option<Seq<u8>> {
    match relay {
        RelayData::Nothing => None,
        RelayData::Flood { message_id, bytes } => Some(bytes),
        RelayData::Track { sender, message_id, expires_at, bytes } => Some(bytes),
    }
}

/// An envelope is one a node takes up: of its version, signed by the node it names, and not
/// expired, five minutes of clock skew allowed for.
pub open spec fn fit_to_travel(e: EnvelopeData, now_ms: u64) -> bool {
    &&& e.protocol_version == 3
    &&& e.signature.len() == 64
    &&& primitives::ed25519_accepts(e.sender@, e.signed_bytes(), e.signature)
    &&& now_ms <= e.expires_at + 300_000
}

/// A node has neither handled an envelope nor, where it is a call frame, met it.
pub open spec fn unknown_to(n: NodeData, e: EnvelopeData) -> bool {
    if e.message_type == MessageType::CallFrame {
        forall|i: int| 0 <= i < n.flood.len() ==> #[trigger] n.flood[i] != (e.sender, e.message_id)
    } else {
        forall|i: int|
            0 <= i < n.replay.len() ==> !((#[trigger] n.replay[i]).sender == e.sender
                && n.replay[i].message_id == e.message_id)
    }
}

/// Packets travel. Whatever a packet carries and whoever it is for, a node that meets it for the
/// first time hands it on, as long as it is authentic, has not expired and has hops left. The copy
/// says what the packet said, one hop further, and is no larger. Where it is for another node, and
/// is no call frame, it goes to every neighbour with a record of each; otherwise once.
#[verifier::rlimit(40)]
pub proof fn law_packets_travel(
    n: NodeData,
    raw: Seq<u8>,
    e: EnvelopeData,
    now_ms: u64,
    uptime_ms: u64,
)
    requires
        raw.len() <= 65_536,
        wire::envelope_in(raw) == Some(e),
        fit_to_travel(e, now_ms),
        unknown_to(n, e),
        e.hops_used < e.max_hops,
    ensures
        node::received(n, raw, now_ms, uptime_ms) is Some,
        ({
            let relay = response(n, raw, now_ms, uptime_ms).relay;
            let copy = bytes_handed_on(relay);
            &&& copy is Some
            &&& wire::envelope_in(copy->0) == Some(
                EnvelopeData { hops_used: (e.hops_used + 1) as u8, ..e },
            )
            &&& copy->0.len() <= raw.len()
            &&& if e.recipient is Some && e.recipient->0 != n.id && e.message_type
                != MessageType::CallFrame {
                &&& relay is Track
                &&& relay->Track_sender == e.sender
                &&& relay->Track_message_id == e.message_id
                &&& relay->expires_at == e.expires_at
            } else {
                relay is Flood && relay->Flood_message_id == e.message_id
            }
        }),
{
    wire::law_copy_reads_back(raw, e, (e.hops_used + 1) as u8);
    lemma_unknown(n, e);
}

proof fn lemma_unknown(n: NodeData, e: EnvelopeData)
    ensures
        unknown_to(n, e) <==> is_new(e.message_type, n, e.sender, e.message_id),
{
    if e.message_type == MessageType::CallFrame {
        let key = (e.sender, e.message_id);
        if n.flood.contains(key) {
            let i = choose|i: int| 0 <= i < n.flood.len() && n.flood[i] == key;
            assert(n.flood[i] == key);
        }
        if !unknown_to(n, e) {
            let i = choose|i: int| 0 <= i < n.flood.len() && #[trigger] n.flood[i] == key;
            assert(n.flood.contains(key));
        }
    }
}

/// A packet that has used up its hops is not handed on, whatever it is.
pub proof fn law_last_hop_ends_the_journey(
    n: NodeData,
    raw: Seq<u8>,
    e: EnvelopeData,
    now_ms: u64,
    uptime_ms: u64,
)
    requires
        wire::envelope_in(raw) == Some(e),
        e.hops_used >= e.max_hops,
        node::received(n, raw, now_ms, uptime_ms) is Some,
    ensures
        bytes_handed_on(response(n, raw, now_ms, uptime_ms).relay) is None,
{
}

/// A message reaches its recipient across a relay. What a node sends to one node, or to everyone
/// on the channel, is handed on by a node that meets it for the first time, and what that node
/// hands on is taken in by those the message is meant for exactly as if it had come directly.
#[verifier::rlimit(40)]
pub proof fn law_message_crosses_a_relay(
    sender: NodeData,
    relay: NodeData,
    recipient: NodeData,
    destination: DestinationData,
    message_type: MessageType,
    payload: PayloadData,
    outgoing: Outgoing,
    sent_at: u64,
    hops: u8,
    raw: Seq<u8>,
    relayed_at: u64,
    relay_uptime: u64,
    now_ms: u64,
    uptime_ms: u64,
)
    requires
        node::sends(outgoing, sender, destination, message_type, payload, sent_at),
        is_for(destination, sender, recipient),
        comes_in(outgoing, sent_at, hops, raw, relayed_at),
        hops < sender.max_hops,
        unknown_to(relay, node::envelope_of(outgoing)),
        unknown_to(recipient, node::envelope_of(outgoing)),
        now_ms <= sent_at + MESSAGE_LIFETIME_MS + CLOCK_SKEW_TOLERANCE_MS,
    ensures
        ({
            let copy = bytes_handed_on(response(relay, raw, relayed_at, relay_uptime).relay);
            let e = EnvelopeData {
                hops_used: (hops + 1) as u8,
                ..node::envelope_of(outgoing)
            };
            &&& copy is Some
            &&& (
                node_after(recipient, copy->0, now_ms, uptime_ms),
                response(recipient, copy->0, now_ms, uptime_ms).local,
            ) == node::taken_in(
                taking_in(recipient, e, now_ms),
                e,
                payload,
                identity_shown(destination, sender),
                uptime_ms,
            )
        }),
{
    let sent = node::envelope_of(outgoing);
    let e = EnvelopeData { hops_used: hops, ..sent };
    crate::message::law_hop_count_is_not_signed(sent, hops);
    law_packets_travel(relay, raw, e, relayed_at, relay_uptime);
    let copy = bytes_handed_on(response(relay, raw, relayed_at, relay_uptime).relay)->0;
    lemma_unknown(recipient, sent);
    law_payload_is_read(
        sender,
        recipient,
        destination,
        message_type,
        payload,
        outgoing,
        sent_at,
        (hops + 1) as u8,
        copy,
        now_ms,
        uptime_ms,
    );
}

/// What a node sends can travel: it is authentic, names the sender and the recipient, has not
/// used a hop of the sender's budget, and counts as fresh for ten minutes, five of them for clock
/// skew.
pub proof fn law_sent_message_can_travel(
    sender: NodeData,
    destination: DestinationData,
    message_type: MessageType,
    payload: PayloadData,
    outgoing: Outgoing,
    sent_at: u64,
    now_ms: u64,
)
    requires
        node::sends(outgoing, sender, destination, message_type, payload, sent_at),
    ensures
        ({
            let e = node::envelope_of(outgoing);
            &&& wire::envelope_in(outgoing.bytes@) == Some(e)
            &&& outgoing.message_id == e.message_id
            &&& e.sender == sender.id
            &&& e.recipient == match destination {
                DestinationData::Broadcast => None,
                DestinationData::ChannelDirect(id) => Some(id),
                DestinationData::DirectV1(id, to) => Some(id),
            }
            &&& e.message_type == message_type
            &&& e.created_at == sent_at
            &&& e.expires_at == sent_at + 300_000
            &&& e.max_hops == sender.max_hops
            &&& e.hops_used == 0
            &&& now_ms <= sent_at + 600_000 ==> fit_to_travel(e, now_ms)
        }),
{
}

// ---------------------------------------------------------------------------------------------
// What was received is stored, announced and acknowledged
// ---------------------------------------------------------------------------------------------

/// Content that has been stored is announced, as it is and from whom, and acknowledged to a sender
/// that is known. Content that was there is acknowledged again and not announced. Apart from the
/// record of handled messages the node stays as it is.
pub proof fn law_stored_content_is_announced(
    n: NodeData,
    pending: PendingData,
    error: InboxError,
    now_ms: u64,
)
    ensures
        ({
            let acknowledge = if pending.sender_identity is Some {
                Some((pending.sender_identity->0, pending.message_id))
            } else {
                None
            };
            let (after, result) = node::settled(n, pending, Ok(InsertOutcome::Inserted), now_ms);
            let known = node::settled(n, pending, Ok(InsertOutcome::AlreadyPresent), now_ms);
            let failed = node::settled(n, pending, Err(error), now_ms);
            &&& result.event == Some(
                EventData::Content(
                    DeliveredData {
                        sender: pending.sender,
                        sender_identity: pending.sender_identity,
                        message_id: pending.message_id,
                        content: pending.content,
                    },
                ),
            )
            &&& result.acknowledge == acknowledge
            &&& after == (NodeData { replay: after.replay, ..n })
            &&& known.1.acknowledge == acknowledge
            &&& known.1.event is None
            &&& known.0 == n
            &&& failed.1.acknowledge is None
            &&& failed.1.event is None
            &&& failed.0 == n
        }),
{
}

/// A message that has been stored is handled: it is in the record of handled messages, to stay
/// there until five minutes after it has expired. It has to be new there, and there has to be
/// room, with nothing out of date.
pub proof fn law_stored_message_is_handled(n: NodeData, pending: PendingData, now_ms: u64)
    requires
        n.replay.len() < n.replay_limit,
        forall|i: int| 0 <= i < n.replay.len() ==> (#[trigger] n.replay[i]).retain_until >= now_ms,
        forall|i: int|
            0 <= i < n.replay.len() ==> !((#[trigger] n.replay[i]).sender == pending.sender
                && n.replay[i].message_id == pending.message_id),
        now_ms <= pending.expires_at <= u64::MAX - 300_000,
    ensures
        ({
            let after = node::settled(n, pending, Ok(InsertOutcome::Inserted), now_ms).0.replay;
            &&& after.len() == n.replay.len() + 1
            &&& after.drop_last() == n.replay
            &&& after.last().sender == pending.sender
            &&& after.last().message_id == pending.message_id
            &&& after.last().retain_until == pending.expires_at + 300_000
        }),
{
    replay_store::law_with_room_marking_only_adds(
        n.replay,
        pending.sender,
        pending.message_id,
        now_ms,
        pending.expires_at,
        n.replay_limit,
    );
}

/// New content is stored, whatever it is, as long as the cipher can seal it: it enters the inbox
/// behind everything that is there, which stays, and is in the history with its sender, its id,
/// the time and all it says. There has to be room.
pub proof fn law_new_content_is_in_the_history(
    n: NodeData,
    inbox: Seq<StoredData>,
    outcome: Result<InsertOutcome, InboxError>,
    pending: PendingData,
    now_ms: u64,
) -> (at: int)
    requires
        node::content_stored(n, inbox, outcome, pending, now_ms),
        wire::content_len(pending.content) <= primitives::MAX_PLAINTEXT_LEN,
        n.inbox.len() < n.inbox_limit,
        forall|i: int|
            0 <= i < n.inbox.len() ==> !((#[trigger] n.inbox[i]).sender == pending.sender
                && n.inbox[i].message_id == pending.message_id),
    ensures
        outcome == Ok::<InsertOutcome, InboxError>(InsertOutcome::Inserted),
        inbox.len() == n.inbox.len() + 1,
        inbox.drop_last() == n.inbox,
        ({
            let history = inbox_store::shown(
                timeline::by_time::<StoredMessage>(inbox),
                n.inbox_key,
            );
            &&& 0 <= at < history.len()
            &&& history[at].sender == pending.sender
            &&& history[at].message_id == pending.message_id
            &&& history[at].received_at == now_ms
            &&& history[at].content == pending.content
        }),
{
    if inbox_store::has_message(n.inbox, pending.sender, pending.message_id) {
        let i = choose|i: int|
            0 <= i < n.inbox.len() && (#[trigger] n.inbox[i]).is_of(
                pending.sender,
                pending.message_id,
            );
        assert(n.inbox[i].sender == pending.sender);
    }
    let row = choose|row: StoredData|
        {
            &&& #[trigger] row.records(
                n.inbox_key,
                pending.sender,
                pending.message_id,
                now_ms,
                pending.content,
            )
            &&& inbox == table::evicted::<StoredMessage>(n.inbox.push(row), n.inbox_limit)
        };
    assert(inbox == n.inbox.push(row));
    assert(inbox.drop_last() =~= n.inbox);
    let (order, opening) = inbox_store::law_history_is_complete(inbox, n.inbox_key);
    let last = n.inbox.len() as int;
    assert(inbox[last] == row);
    assert(order.contains(last));
    let k = choose|k: int| 0 <= k < order.len() && order[k] == last;
    let opens = |k: int| inbox[order[k]].content(n.inbox_key) is Some;
    assert(opens(k));
    let at = choose|at: int| 0 <= at < opening.len() && opening[at] == k;
    let history = inbox_store::shown(timeline::by_time::<StoredMessage>(inbox), n.inbox_key);
    assert(inbox_store::shows(history[at], inbox[order[opening[at]]], n.inbox_key));
    at
}

/// The content that can be sealed: a text or a file of up to many gigabytes.
pub proof fn law_ordinary_content_can_be_sealed(content: ContentData)
    ensures
        content matches ContentData::Text(text) ==> encode_utf8(text).len() <= 0x1_0000_0000
            ==> wire::content_len(content) <= primitives::MAX_PLAINTEXT_LEN,
        content matches ContentData::File { transfer_id, name, mime, kind, data } ==> encode_utf8(
            name,
        ).len() + encode_utf8(mime).len() + data.len() <= 0x1_0000_0000 ==> wire::content_len(
            content,
        ) <= primitives::MAX_PLAINTEXT_LEN,
{
}

// ---------------------------------------------------------------------------------------------
// What was sent reaches the other application
// ---------------------------------------------------------------------------------------------

/// A short text reaches the application of everyone it is meant for: once its message has come in
/// and been stored, the last message that waits there is this text, from this sender.
#[verifier::rlimit(40)]
pub proof fn law_text_reaches_the_application(
    sender: NodeData,
    recipient: NodeData,
    destination: DestinationData,
    outgoing: Outgoing,
    transfer_id: [u8; 16],
    text: Seq<char>,
    sent_at: u64,
    hops: u8,
    raw: Seq<u8>,
    now_ms: u64,
    uptime_ms: u64,
    application: ClientData,
)
    requires
        encode_utf8(text).len() <= 1_024,
        node::sends(
            outgoing,
            sender,
            destination,
            MessageType::Chat,
            node::text_payload(transfer_id, encode_utf8(text)),
            sent_at,
        ),
        is_for(destination, sender, recipient),
        wire::envelope_in(raw) == Some(
            EnvelopeData { hops_used: hops, ..node::envelope_of(outgoing) },
        ),
        raw.len() == outgoing.bytes@.len(),
        now_ms <= sent_at + 600_000,
        unknown_to(recipient, node::envelope_of(outgoing)),
        forall|i: int|
            0 <= i < recipient.transfers.len() ==> (#[trigger] recipient.transfers[i]).transfer_id
                != transfer_id,
    ensures
        ({
            let local = response(recipient, raw, now_ms, uptime_ms).local;
            let pending = local->Store_0;
            let settled = node::settled(recipient, pending, Ok(InsertOutcome::Inserted), now_ms).1;
            let waits = client::told(application, settled.event->0).inbox;
            &&& local is Store
            &&& pending.content == ContentData::Text(text)
            &&& pending.sender == sender.id
            &&& pending.message_id == outgoing.message_id
            &&& settled.event is Some
            &&& waits.len() >= 1
            &&& waits.last().text == Some(text)
            &&& waits.last().attachment is None
            &&& waits.last().peer_id == bytes::hex_text(sender.id@)
            &&& waits.last().message_id == bytes::hex_text(outgoing.message_id@)
            &&& application.inbox.len() < 500 ==> waits.drop_last() == application.inbox
        }),
{
    reassembly::lemma_not_swept_in(recipient.transfers, uptime_ms, transfer_id);
    lemma_unknown(recipient, node::envelope_of(outgoing));
    law_text_arrives(
        sender,
        recipient,
        destination,
        outgoing,
        transfer_id,
        text,
        sent_at,
        hops,
        raw,
        now_ms,
        uptime_ms,
    );
    let pending = response(recipient, raw, now_ms, uptime_ms).local->Store_0;
    let event = node::settled(recipient, pending, Ok(InsertOutcome::Inserted), now_ms).1.event->0;
    client::law_news_waits_for_the_application(
        application,
        event,
        TransferProgress {
            transfer_id,
            kind: ContentKind::Text,
            done_chunks: 0,
            total_chunks: 0,
        },
        crate::records::TransferDirection::Sending,
    );
    records::law_text_is_shown_whole(pending.sender, pending.message_id, text);
    let waits = client::told(application, event).inbox;
    if application.inbox.len() < 500 {
        assert(waits.drop_last() =~= application.inbox);
    }
}

/// A file reaches the application of everyone it is meant for. Once its last missing chunk has
/// come in and the content has been stored, the last message that waits there is the file, from
/// this sender, under its name and MIME type, with every byte that was sent.
#[verifier::rlimit(60)]
#[verifier::spinoff_prover]
pub proof fn law_file_reaches_the_application(
    sender: NodeData,
    recipient: NodeData,
    destination: DestinationData,
    transfer_id: [u8; 16],
    kind: ContentKind,
    name: Seq<char>,
    mime: Seq<char>,
    data: Seq<u8>,
    arrivals: Seq<Arrival>,
    stored_at: u64,
    application: ClientData,
)
    requires
        kind != ContentKind::Text,
        is_for(destination, sender, recipient),
        payload::chunks_needed(data.len()) <= u32::MAX,
        arrivals.len() > 0,
        forall|i: int|
            0 <= i < arrivals.len() ==> chunk_comes_in(
                #[trigger] arrivals[i],
                sender,
                recipient,
                destination,
                file_described(transfer_id, kind, name, mime),
                data,
            ),
        forall|i: int|
            0 <= i < recipient.transfers.len() ==> (#[trigger] recipient.transfers[i]).transfer_id
                != transfer_id,
        reassembly::carries(
            recipient.transfers,
            stream_of(arrivals, file_described(transfer_id, kind, name, mime), data),
            file_described(transfer_id, kind, name, mime),
            data,
        ),
        !reassembly::all_arrived(
            stream_of(
                arrivals.drop_last(),
                file_described(transfer_id, kind, name, mime),
                data,
            ),
            transfer_id,
            payload::chunks_needed(data.len()),
        ),
        forall|k: int|
            0 <= k < payload::chunks_needed(data.len()) ==> #[trigger] has_arrived(arrivals, k),
    ensures
        ({
            let last = arrivals.last();
            let before = node_through(recipient, arrivals.drop_last());
            let local = response(before, last.raw, last.now_ms, last.uptime_ms).local;
            let pending = local->Store_0;
            let settled = node::settled(before, pending, Ok(InsertOutcome::Inserted), stored_at).1;
            let waits = client::told(application, settled.event->0).inbox;
            let shown = waits.last();
            &&& local is Store
            &&& pending.sender == sender.id
            &&& settled.event is Some
            &&& waits.len() >= 1
            &&& shown.peer_id == bytes::hex_text(sender.id@)
            &&& shown.text is None
            &&& shown.attachment is Some
            &&& shown.attachment->0.name == name
            &&& shown.attachment->0.mime == mime
            &&& shown.attachment->0.data.len() == data.len()
            &&& forall|i: int|
                0 <= i < data.len() ==> (#[trigger] shown.attachment->0.data[i]) == data[i]
            &&& shown.attachment->0.kind == AttachmentKind::Image <==> kind == ContentKind::Image
            &&& shown.attachment->0.kind == AttachmentKind::Video <==> kind == ContentKind::Video
            &&& shown.attachment->0.kind == AttachmentKind::Voice <==> kind == ContentKind::Voice
        }),
{
    let whole = file_described(transfer_id, kind, name, mime);
    let n = payload::chunks_needed(data.len());
    let stream = stream_of(arrivals, whole, data);
    reassembly::lemma_not_there(recipient.transfers, transfer_id);
    assert forall|i: int| 0 <= i < arrivals.len() implies (#[trigger] stream[i]).0
        == reassembly::chunk_of(whole, data, arrivals[i].index) by {}
    assert forall|k: u32| k < n implies #[trigger] reassembly::arrived(
        stream,
        transfer_id,
        n,
    ).contains(k) by {
        assert(has_arrived(arrivals, k as int));
        let i = choose|i: int| 0 <= i < arrivals.len() && (#[trigger] arrivals[i]).index == k;
        assert(stream[i].0 == reassembly::chunk_of(whole, data, arrivals[i].index));
        reassembly::lemma_arrived(stream, transfer_id, n, i);
    }
    law_transfer_arrives(sender, recipient, destination, whole, data, arrivals);
    reassembly::law_content_is_what_was_sent(
        transfer_id,
        kind,
        Some(name),
        Some(mime),
        data,
        Seq::empty(),
    );
    let last = arrivals.last();
    let before = node_through(recipient, arrivals.drop_last());
    let pending = response(before, last.raw, last.now_ms, last.uptime_ms).local->Store_0;
    let event = node::settled(before, pending, Ok(InsertOutcome::Inserted), stored_at).1.event->0;
    client::law_news_waits_for_the_application(
        application,
        event,
        TransferProgress { transfer_id, kind, done_chunks: 0, total_chunks: 0 },
        crate::records::TransferDirection::Sending,
    );
    records::law_file_is_shown_whole(
        pending.sender,
        pending.message_id,
        transfer_id,
        name,
        mime,
        kind,
        data,
    );
}

/// The chunk with the given index is among those that come in.
pub open spec fn has_arrived(arrivals: Seq<Arrival>, index: int) -> bool {
    exists|i: int| 0 <= i < arrivals.len() && (#[trigger] arrivals[i]).index == index
}

/// The transfer of a file, before anything of it has arrived.
pub open spec fn file_described(
    transfer_id: [u8; 16],
    kind: ContentKind,
    name: Seq<char>,
    mime: Seq<char>,
) -> TransferData {
    TransferData {
        transfer_id,
        chunk_count: 0,
        kind,
        file_name: Some(name),
        mime_type: Some(mime),
        received: Map::empty(),
        last_seen_ms: 0,
    }
}

/// A call reaches the application of the node that is called: every signal for what it is, and
/// every frame with all its bytes, from whom it came and of which call.
#[verifier::rlimit(40)]
pub proof fn law_call_reaches_the_application(
    sender: NodeData,
    recipient: NodeData,
    message: CallMessageData,
    outgoing: Outgoing,
    sent_at: u64,
    hops: u8,
    raw: Seq<u8>,
    now_ms: u64,
    uptime_ms: u64,
    application: ClientData,
)
    requires
        sender.channel_key == recipient.channel_key,
        node::sends(
            outgoing,
            sender,
            DestinationData::ChannelDirect(recipient.id),
            if message is Frame {
                MessageType::CallFrame
            } else {
                MessageType::CallSignal
            },
            PayloadData::Call(message),
            sent_at,
        ),
        wire::envelope_in(raw) == Some(
            EnvelopeData { hops_used: hops, ..node::envelope_of(outgoing) },
        ),
        raw.len() <= 65_536,
        now_ms <= sent_at + 600_000,
        unknown_to(recipient, node::envelope_of(outgoing)),
    ensures
        ({
            let local = response(recipient, raw, now_ms, uptime_ms).local;
            let after = client::told(application, local->Event_0);
            &&& local is Event
            &&& message matches CallMessageData::Signal(signal) ==> {
                &&& after.call_events.len() >= 1
                &&& after.call_events.last().remote_node_id == bytes::hex_text(sender.id@)
                &&& match signal {
                    CallSignal::Invite { call_id, video } => {
                        &&& after.call_events.last().call_id == bytes::hex_text(call_id@)
                        &&& after.call_events.last().kind == (CallEventKind::IncomingInvite {
                            video,
                        })
                    },
                    CallSignal::Accept { call_id } => {
                        &&& after.call_events.last().call_id == bytes::hex_text(call_id@)
                        &&& after.call_events.last().kind == CallEventKind::Accepted
                    },
                    CallSignal::Reject { call_id } => {
                        &&& after.call_events.last().call_id == bytes::hex_text(call_id@)
                        &&& after.call_events.last().kind == CallEventKind::Rejected
                    },
                    CallSignal::End { call_id } => {
                        &&& after.call_events.last().call_id == bytes::hex_text(call_id@)
                        &&& after.call_events.last().kind == CallEventKind::Ended
                    },
                }
            }
            &&& message matches CallMessageData::Frame(frame) ==> {
                &&& after.call_frames.len() >= 1
                &&& after.call_frames.last().remote_node_id == bytes::hex_text(sender.id@)
                &&& after.call_frames.last().call_id == bytes::hex_text(frame.call_id@)
                &&& after.call_frames.last().media == CallMediaKind::Audio <==> frame.media
                    == crate::call::MediaKind::Audio
                &&& after.call_frames.last().sequence == frame.sequence
                &&& after.call_frames.last().data == frame.data
            }
        }),
{
    lemma_unknown(recipient, node::envelope_of(outgoing));
    law_call_message_arrives(
        sender,
        recipient,
        message,
        outgoing,
        sent_at,
        hops,
        raw,
        now_ms,
        uptime_ms,
    );
    let event = response(recipient, raw, now_ms, uptime_ms).local->Event_0;
    client::law_news_waits_for_the_application(
        application,
        event,
        TransferProgress {
            transfer_id: outgoing.message_id,
            kind: ContentKind::File,
            done_chunks: 0,
            total_chunks: 0,
        },
        crate::records::TransferDirection::Sending,
    );
    match message {
        CallMessageData::Signal(CallSignal::Invite { call_id, video }) => {
            records::law_signal_is_shown(sender.id, call_id, video);
        },
        CallMessageData::Signal(CallSignal::Accept { call_id }) => {
            records::law_signal_is_shown(sender.id, call_id, true);
        },
        CallMessageData::Signal(CallSignal::Reject { call_id }) => {
            records::law_signal_is_shown(sender.id, call_id, true);
        },
        CallMessageData::Signal(CallSignal::End { call_id }) => {
            records::law_signal_is_shown(sender.id, call_id, true);
        },
        CallMessageData::Frame(frame) => {
            records::law_frame_is_shown_whole(sender.id, frame, CallMediaKind::Audio);
        },
    }
}

// ---------------------------------------------------------------------------------------------
// Reliable messages
// ---------------------------------------------------------------------------------------------

/// A reliable text is kept from the moment it is sent: what its recipient gets, byte for byte, is
/// what is in the store, and it is handed out to be sent at once and until its time is over. There
/// has to be room.
pub proof fn law_reliable_message_is_kept(
    n: NodeData,
    e: EnvelopeData,
    recipient: NodeId,
    encoded: Seq<u8>,
    now_ms: u64,
) -> (at: int)
    requires
        n.delivery.len() < n.delivery_limit,
        forall|i: int| 0 <= i < n.delivery.len() ==> (#[trigger] n.delivery[i]).message_id != e.message_id,
        e.created_at <= now_ms < e.expires_at,
    ensures
        ({
            let after = node::having_queued(n, e, recipient, encoded);
            let due = delivery_store::due(after.delivery, now_ms);
            &&& after == (NodeData { delivery: after.delivery, ..n })
            &&& after.delivery.len() == n.delivery.len() + 1
            &&& after.delivery.drop_last() == n.delivery
            &&& after.delivery.last().expires_at == e.expires_at
            &&& 0 <= at < due.len()
            &&& due[at].message_id == e.message_id
            &&& due[at].recipient == recipient
            &&& due[at].envelope_bytes == encoded
        }),
{
    delivery_store::law_queued_message_is_kept(
        n.delivery,
        e.message_id,
        recipient,
        encoded,
        e.created_at,
        e.expires_at,
        n.delivery_limit,
    );
    let after = node::having_queued(n, e, recipient, encoded).delivery;
    let from = delivery_store::law_open_messages_are_due(after, now_ms);
    let last = n.delivery.len() as int;
    assert(after[last] == after.last());
    let wanted = |i: int|
        (after[i].state == OutboundState::Queued || after[i].state == OutboundState::Sent)
            && after[i].next_attempt_at <= now_ms && now_ms < after[i].expires_at;
    assert(wanted(last));
    let at = choose|at: int| 0 <= at < from.len() && from[at] == last;
    assert(delivery_store::due(after, now_ms)[at].message_id == after[from[at]].message_id);
    at
}

/// An acknowledgement ends the retries. When the recipient's acknowledgement of a message reaches
/// the sender, the message is settled if it was open, every other row stays as it was, and the
/// message is never handed out again.
#[verifier::rlimit(40)]
pub proof fn law_acknowledgement_ends_the_retries(
    sender: NodeData,
    recipient: NodeData,
    outgoing: Outgoing,
    message_id: [u8; 16],
    sent_at: u64,
    hops: u8,
    raw: Seq<u8>,
    now_ms: u64,
    uptime_ms: u64,
    i: int,
    later_ms: u64,
)
    requires
        node::sends(
            outgoing,
            recipient,
            DestinationData::DirectV1(sender.id, session::public_identity_of(sender.seed)),
            MessageType::DeliveryAck,
            PayloadData::DeliveryAck(DeliveryAck { acked_message_id: message_id }),
            sent_at,
        ),
        is_for(
            DestinationData::DirectV1(sender.id, session::public_identity_of(sender.seed)),
            recipient,
            sender,
        ),
        wire::envelope_in(raw) == Some(
            EnvelopeData { hops_used: hops, ..node::envelope_of(outgoing) },
        ),
        raw.len() == outgoing.bytes@.len(),
        now_ms <= sent_at + 600_000,
        unknown_to(sender, node::envelope_of(outgoing)),
        0 <= i < sender.delivery.len(),
    ensures
        ({
            let before = sender.delivery;
            let after = node_after(sender, raw, now_ms, uptime_ms).delivery;
            let due = delivery_store::due(after, later_ms);
            let theirs = before[i].message_id == message_id && before[i].recipient == recipient.id;
            &&& after.len() == before.len()
            &&& after[i] == (OutboundData {
                state: if theirs && (before[i].state == OutboundState::Queued || before[i].state
                    == OutboundState::Sent) {
                    OutboundState::Acknowledged
                } else {
                    before[i].state
                },
                ..before[i]
            })
            &&& forall|j: int|
                0 <= j < due.len() ==> !((#[trigger] due[j]).message_id == message_id
                    && due[j].recipient == recipient.id)
        }),
{
    lemma_unknown(sender, node::envelope_of(outgoing));
    law_acknowledgement_settles_the_message(
        sender,
        recipient,
        outgoing,
        message_id,
        sent_at,
        hops,
        raw,
        now_ms,
        uptime_ms,
    );
    let before = sender.delivery;
    let after = node_after(sender, raw, now_ms, uptime_ms).delivery;
    delivery_store::law_messages_are_settled_or_given_up(
        before,
        message_id,
        recipient.id,
        later_ms,
        i,
    );
    let from = delivery_store::law_open_messages_are_due(after, later_ms);
    let due = delivery_store::due(after, later_ms);
    let wanted = |i: int|
        (after[i].state == OutboundState::Queued || after[i].state == OutboundState::Sent)
            && after[i].next_attempt_at <= later_ms && later_ms < after[i].expires_at;
    assert forall|j: int| 0 <= j < due.len() implies !((#[trigger] due[j]).message_id == message_id
        && due[j].recipient == recipient.id) by {
        let k = from[j];
        assert(wanted(k));
        delivery_store::law_messages_are_settled_or_given_up(
            before,
            message_id,
            recipient.id,
            later_ms,
            k,
        );
        assert(due[j].message_id == after[k].message_id);
    }
}

/// A call signal or an acknowledgement takes effect once: when it comes again, whichever way, it is
/// neither handed on nor read. There has to be room, with nothing out of date, and the packet has
/// to be one the node can read.
#[verifier::rlimit(40)]
pub proof fn law_signal_takes_effect_once(
    n: NodeData,
    raw: Seq<u8>,
    e: EnvelopeData,
    now_ms: u64,
    uptime_ms: u64,
    again: Seq<u8>,
    copy: EnvelopeData,
    later_ms: u64,
    later_uptime: u64,
)
    requires
        raw.len() <= 65_536,
        wire::envelope_in(raw) == Some(e),
        fit_to_travel(e, now_ms),
        unknown_to(n, e),
        e.message_type == MessageType::CallSignal || e.message_type == MessageType::DeliveryAck,
        e.recipient is None || e.recipient->0 == n.id,
        node::read_by(n.id, n.seed, n.channel_key, e) is Some,
        n.replay.len() < n.replay_limit,
        forall|i: int| 0 <= i < n.replay.len() ==> (#[trigger] n.replay[i]).retain_until >= now_ms,
        wire::envelope_in(again) == Some(copy),
        copy.sender == e.sender,
        copy.message_id == e.message_id,
        copy.message_type != MessageType::CallFrame,
    ensures
        ({
            let after = node_after(n, raw, now_ms, uptime_ms);
            let second = response(after, again, later_ms, later_uptime);
            &&& node_after(after, again, later_ms, later_uptime) == after
            &&& second.relay is Nothing
            &&& second.local is Nothing || second.local is Acknowledge
        }),
{
    lemma_unknown(n, e);
    replay_store::law_with_room_marking_only_adds(
        n.replay,
        e.sender,
        e.message_id,
        now_ms,
        e.expires_at,
        n.replay_limit,
    );
    let after = node_after(n, raw, now_ms, uptime_ms);
    let handled = n.having_handled(e.sender, e.message_id, now_ms, e.expires_at).replay;
    replay_store::lemma_added(n.replay, handled, e.sender, e.message_id);
    assert(after.replay == handled);
}

/// The one chunk of a short text is the text, whole.
pub proof fn law_short_text_is_one_chunk(transfer_id: [u8; 16], text: Seq<char>)
    requires
        encode_utf8(text).len() <= 1_024,
    ensures
        node::text_payload(transfer_id, encode_utf8(text)) == PayloadData::Chunk(
            ChunkData {
                transfer_id,
                chunk_index: 0,
                chunk_count: 1,
                kind: ContentKind::Text,
                file_name: None,
                mime_type: None,
                data: encode_utf8(text),
            },
        ),
{
    let data = encode_utf8(text);
    payload::law_chunks_hold_everything(transfer_id, ContentKind::Text, None, None, data);
    let chunk = payload::chunks_of(transfer_id, ContentKind::Text, None, None, data)[0];
    assert(chunk.data =~= data);
}

/// A call frame is taken in once and never recorded for good: when it comes again it is ignored,
/// and the record of handled messages does not change. The memory of packets must hold one.
pub proof fn law_frame_is_taken_in_once(
    n: NodeData,
    raw: Seq<u8>,
    e: EnvelopeData,
    now_ms: u64,
    uptime_ms: u64,
    again: Seq<u8>,
    copy: EnvelopeData,
    later_ms: u64,
    later_uptime: u64,
)
    requires
        raw.len() <= 65_536,
        wire::envelope_in(raw) == Some(e),
        fit_to_travel(e, now_ms),
        e.message_type == MessageType::CallFrame,
        n.flood_limit >= 1,
        n.flood.len() <= n.flood_limit,
        wire::envelope_in(again) == Some(copy),
        copy.sender == e.sender,
        copy.message_id == e.message_id,
        copy.message_type == MessageType::CallFrame,
    ensures
        ({
            let after = node_after(n, raw, now_ms, uptime_ms);
            let second = response(after, again, later_ms, later_uptime);
            &&& after.replay == n.replay
            &&& node_after(after, again, later_ms, later_uptime) == after
            &&& second.relay is Nothing
            &&& second.local is Nothing
        }),
{
    flood_guard::law_met_again_is_not_new(n.flood, (e.sender, e.message_id), n.flood_limit);
    let after = node_after(n, raw, now_ms, uptime_ms);
    assert(after.flood.contains((e.sender, e.message_id)));
}

/// What a node can read takes effect, whatever else its envelope says. A call message goes to the
/// application. An acknowledgement settles the open messages that it names, if they went to its
/// sender. A chunk goes to its transfer; the progress is reported, or the finished content is to be
/// stored, under the sender and the message that brought it. Nothing else changes but the records
/// of what was met and handled, and chat is not handled before it has been stored.
#[verifier::rlimit(40)]
pub proof fn law_what_can_be_read_takes_effect(
    n: NodeData,
    raw: Seq<u8>,
    e: EnvelopeData,
    payload: PayloadData,
    identity: Option<PublicIdentityData>,
    now_ms: u64,
    uptime_ms: u64,
)
    requires
        raw.len() <= 65_536,
        wire::envelope_in(raw) == Some(e),
        fit_to_travel(e, now_ms),
        unknown_to(n, e),
        e.recipient is None || e.recipient->0 == n.id,
        node::read_by(n.id, n.seed, n.channel_key, e) == Some((payload, identity)),
    ensures
        ({
            let after = node_after(n, raw, now_ms, uptime_ms);
            let local = response(n, raw, now_ms, uptime_ms).local;
            &&& after == (NodeData {
                flood: after.flood,
                replay: after.replay,
                transfers: after.transfers,
                delivery: after.delivery,
                ..n
            })
            &&& e.message_type != MessageType::CallFrame ==> after.flood == n.flood
            &&& e.message_type == MessageType::Chat || e.message_type == MessageType::CallFrame
                ==> after.replay == n.replay
            &&& !(payload is DeliveryAck) ==> after.delivery == n.delivery
            &&& !(payload is Chunk) ==> after.transfers == n.transfers
            &&& match payload {
                PayloadData::Call(message) => local == LocalData::Event(
                    EventData::Call(e.sender, message),
                ),
                PayloadData::DeliveryAck(ack) => {
                    &&& local is Nothing
                    &&& after.delivery.len() == n.delivery.len()
                    &&& forall|i: int|
                        0 <= i < n.delivery.len() ==> #[trigger] after.delivery[i] == (
                        OutboundData {
                            state: if n.delivery[i].message_id == ack.acked_message_id
                                && n.delivery[i].recipient == e.sender && n.delivery[i].state
                                != OutboundState::Expired {
                                OutboundState::Acknowledged
                            } else {
                                n.delivery[i].state
                            },
                            ..n.delivery[i]
                        })
                },
                PayloadData::Chunk(chunk) => {
                    let (transfers, outcome) = reassembly::accepted(
                        n.transfers,
                        chunk,
                        uptime_ms,
                    );
                    &&& after.transfers == transfers
                    &&& outcome matches AcceptedData::Progress(progress) ==> local
                        == LocalData::Event(EventData::Progress(e.sender, progress))
                    &&& outcome matches AcceptedData::Complete(content) ==> local
                        == LocalData::Store(
                        PendingData {
                            sender: e.sender,
                            sender_identity: identity,
                            message_id: e.message_id,
                            expires_at: e.expires_at,
                            content,
                        },
                    )
                },
            }
        }),
{
    lemma_unknown(n, e);
}

/// What a node cannot read, or is not meant to, has no effect on it: nothing reaches the
/// application, and the node only remembers that it has met a call frame.
pub proof fn law_what_cannot_be_read_has_no_effect(
    n: NodeData,
    raw: Seq<u8>,
    e: EnvelopeData,
    now_ms: u64,
    uptime_ms: u64,
)
    requires
        wire::envelope_in(raw) == Some(e),
        unknown_to(n, e),
        (e.recipient is Some && e.recipient->0 != n.id) || node::read_by(
            n.id,
            n.seed,
            n.channel_key,
            e,
        ) is None,
    ensures
        ({
            let after = node_after(n, raw, now_ms, uptime_ms);
            &&& response(n, raw, now_ms, uptime_ms).local is Nothing
            &&& after == (NodeData { flood: after.flood, ..n })
            &&& e.message_type != MessageType::CallFrame ==> after == n
        }),
{
    lemma_unknown(n, e);
}

/// Whoever has the key can read: on the channel an envelope that opens under the channel's key, and
/// directly one that comes with a bound identity and opens in the session with that identity. All
/// that matters is that what was sealed is a payload.
pub proof fn law_whoever_has_the_key_can_read(
    id: NodeId,
    seed: Seq<u8>,
    channel_key: Seq<u8>,
    e: EnvelopeData,
    plaintext: Seq<u8>,
)
    ensures
        e.encryption_mode == EncryptionMode::ChannelV1 && primitives::opened(
            channel_key,
            e.nonce@,
            Seq::empty(),
            e.ciphertext,
        ) == Some(plaintext) ==> node::read_by(id, seed, channel_key, e) == match wire::payload_in(
            plaintext,
        ) {
            Some(payload) => Some((payload, None::<PublicIdentityData>)),
            None => None,
        },
        ({
            let body = wire::body_in(e.ciphertext)->0;
            let sender = PublicIdentityData {
                node_id: e.sender@,
                x25519_public: body.header.sender_x25519_public,
                x25519_signature: body.header.sender_x25519_signature,
            };
            let aad = DirectMessageAadV1 {
                protocol_version: e.protocol_version,
                encryption_version: 1,
                message_id: e.message_id,
                sender: e.sender,
                recipient: id,
                message_type: e.message_type,
                created_at: e.created_at,
                expires_at: e.expires_at,
                max_hops: e.max_hops,
            };
            e.encryption_mode == EncryptionMode::DirectV1 && wire::body_in(e.ciphertext) is Some
                && sender.bound() && session::session_of(seed, sender) is Some
                && direct_crypto::direct_opened(
                session::session_of(seed, sender)->0,
                e.sender@,
                aad,
                body.message,
            ) == Ok::<Seq<u8>, DirectCryptoError>(plaintext) ==> node::read_by(
                id,
                seed,
                channel_key,
                e,
            ) == match wire::payload_in(plaintext) {
                Some(payload) => Some((payload, Some(sender))),
                None => None,
            }
        }),
{
}

} // verus!
