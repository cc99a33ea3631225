//! Finding nodes on the local network.
//!
//! A node announces itself every two seconds: who it is, the key it can be reached with, and the
//! port it listens on. Others keep the last announcement of each node for ten seconds. An
//! announcement whose key is not bound to its node id is dropped before it is stored; one that is
//! kept proves who owns the key, and nothing about who the node's owner is.
//!
//! Two nodes show the same six-digit pairing code for each other, so that their owners can
//! compare screens.

use vstd::prelude::*;
use vstd::string::*;

use crate::bytes;
use crate::codec;
use crate::codec::{AnnouncementFields, AnnouncementValues};
use crate::identity;
use crate::identity::NodeId;
use crate::message::PROTOCOL_VERSION;
use crate::primitives;
use crate::session::{PublicIdentity, PublicIdentityData};
use crate::table;
use crate::timeline;
use crate::timeline::Timed;

verus! {

/// The port announcements are sent to.
pub const DISCOVERY_PORT: u16 = 45679;

/// How often a node announces itself.
pub const ANNOUNCE_INTERVAL_MS: u64 = 2_000;

/// How long a node that is not heard from stays visible.
pub const EXPIRE_AFTER_MS: u64 = 10_000;

// ---------------------------------------------------------------------------------------------
// Numbers as text
// ---------------------------------------------------------------------------------------------

/// The decimal digit of a number below ten.
pub open spec fn digit(n: int) -> char {
    (n + 48) as char
}

/// A number in decimal, without leading zeros.
pub open spec fn decimal(n: nat) -> Seq<char>
    decreases n,
{
    if n < 10 {
        seq![digit(n as int)]
    } else {
        decimal(n / 10).push(digit(n as int % 10))
    }
}

/// A number below a million in six decimal digits.
pub open spec fn six_digits(n: int) -> Seq<char> {
    seq![
        digit(n / 100_000),
        digit(n / 10_000 % 10),
        digit(n / 1_000 % 10),
        digit(n / 100 % 10),
        digit(n / 10 % 10),
        digit(n % 10),
    ]
}

/// A port in decimal, without leading zeros.
fn port_text(port: u16) -> (text: String)
    ensures
        text@ == decimal(port as nat),
    decreases port,
{
    let mut text = if port < 10 {
        String::new()
    } else {
        port_text(port / 10)
    };
    text.append(bytes::digit_text((port % 10) as u8));
    assert(text@ =~= decimal(port as nat));
    text
}

/// A number in six decimal digits, filled with zeros.
fn six_digit_text(n: u32) -> (text: String)
    requires
        n < 1_000_000,
    ensures
        text@ == six_digits(n as int),
{
    let mut text = String::new();
    text.append(bytes::digit_text((n / 100_000) as u8));
    text.append(bytes::digit_text((n / 10_000 % 10) as u8));
    text.append(bytes::digit_text((n / 1_000 % 10) as u8));
    text.append(bytes::digit_text((n / 100 % 10) as u8));
    text.append(bytes::digit_text((n / 10 % 10) as u8));
    text.append(bytes::digit_text((n % 10) as u8));
    assert(text@ =~= six_digits(n as int));
    text
}

// ---------------------------------------------------------------------------------------------
// Pairing codes
// ---------------------------------------------------------------------------------------------

/// What the pairing code of two nodes is taken from: their ids, the lower first.
pub open spec fn pairing_input(a: Seq<u8>, b: Seq<u8>) -> Seq<u8> {
    if bytes::not_after(a, b) {
        a + b
    } else {
        b + a
    }
}

/// The pairing code of two nodes: the first four bytes of a hash, reduced to six digits.
pub open spec fn pairing_text(a: Seq<u8>, b: Seq<u8>) -> Seq<char> {
    six_digits(bytes::be32_value(primitives::blake3_digest(pairing_input(a, b))) as int % 1_000_000)
}

/// The pairing code of two nodes.
pub fn pairing_code(a: &NodeId, b: &NodeId) -> (code: String)
    ensures
        code@ == pairing_text(a@, b@),
{
    let mut input: Vec<u8> = Vec::new();
    if bytes::is_not_after(a, b) {
        bytes::append(&mut input, a.as_slice());
        bytes::append(&mut input, b.as_slice());
    } else {
        bytes::append(&mut input, b.as_slice());
        bytes::append(&mut input, a.as_slice());
    }
    assert(input@ =~= pairing_input(a@, b@));
    let hash: [u8; 32] = primitives::blake3_hash(input.as_slice());
    let number: u32 = hash[0] as u32 * 0x100_0000 + hash[1] as u32 * 0x1_0000 + hash[2] as u32
        * 0x100 + hash[3] as u32;
    six_digit_text(number % 1_000_000)
}

/// Both nodes show the same pairing code.
pub proof fn law_pairing_code_is_symmetric(a: NodeId, b: NodeId)
    ensures
        pairing_text(a@, b@) == pairing_text(b@, a@),
{
    bytes::lemma_order(a@, b@);
    assert(pairing_input(a@, b@) == pairing_input(b@, a@));
}

// ---------------------------------------------------------------------------------------------
// Announcements
// ---------------------------------------------------------------------------------------------

/// What a node announces of itself.
#[derive(Debug)]
pub struct Announcement {
    pub public_identity: PublicIdentity,
    /// The name the node gives itself. Never grounds for trust.
    pub display_name: String,
    /// The port the node listens on.
    pub service_port: u16,
    pub protocol_version: u8,
}

/// What an announcement says.
pub struct AnnouncementData {
    pub public_identity: PublicIdentityData,
    pub display_name: Seq<char>,
    pub service_port: u16,
    pub protocol_version: u8,
}

impl View for Announcement {
    type V = AnnouncementData;

    open spec fn view(&self) -> AnnouncementData {
        AnnouncementData {
            public_identity: self.public_identity@,
            display_name: self.display_name@,
            service_port: self.service_port,
            protocol_version: self.protocol_version,
        }
    }
}

/// What the values of an announcement say.
pub open spec fn announced(values: AnnouncementValues) -> AnnouncementData {
    AnnouncementData {
        public_identity: PublicIdentityData {
            node_id: values.0@,
            x25519_public: values.3@,
            x25519_signature: values.4,
        },
        display_name: values.1,
        service_port: values.2,
        protocol_version: values.5,
    }
}

/// The announcement in a packet; `None` where there is none.
pub open spec fn announcement_in(packet: Seq<u8>) -> Option<AnnouncementData> {
    match codec::announcement_decoded(packet) {
        Some(values) => Some(announced(values)),
        None => None,
    }
}

impl Announcement {
    /// What a node announces of itself.
    pub fn new(local: &PublicIdentity, display_name: &str, service_port: u16) -> (announcement: Announcement)
        ensures
            announcement@ == (AnnouncementData {
                public_identity: local@,
                display_name: display_name@,
                service_port,
                protocol_version: PROTOCOL_VERSION,
            }),
    {
        Announcement {
            public_identity: local.clone(),
            display_name: display_name.to_owned(),
            service_port,
            protocol_version: PROTOCOL_VERSION,
        }
    }

    /// The packet of an announcement. Decoding it gives the announcement back.
    pub fn encode(self) -> (packet: Vec<u8>)
        ensures
            announcement_in(packet@) == Some(self@),
            packet@ == codec::announcement_encoded(
                (
                    self.public_identity.node_id,
                    self.display_name@,
                    self.service_port,
                    self.public_identity.x25519_public,
                    self.public_identity.x25519_signature@,
                    self.protocol_version,
                ),
            ),
    {
        let fields: AnnouncementFields = (
            self.public_identity.node_id,
            self.display_name,
            self.service_port,
            self.public_identity.x25519_public,
            self.public_identity.x25519_signature,
            self.protocol_version,
        );
        codec::encode_announcement_fields(&fields)
    }

    /// The announcement in a packet.
    pub fn decode(packet: &[u8]) -> (announcement: Option<Announcement>)
        ensures
            announcement is Some <==> announcement_in(packet@) is Some,
            announcement matches Some(a) ==> announcement_in(packet@) == Some(a@),
    {
        match codec::decode_announcement_fields(packet) {
            Some(f) => {
                let (node_id, display_name, service_port, x25519_public, x25519_signature, protocol_version) =
                    f;
                Some(
                    Announcement {
                        public_identity: PublicIdentity { node_id, x25519_public, x25519_signature },
                        display_name,
                        service_port,
                        protocol_version,
                    },
                )
            },
            None => None,
        }
    }
}

// ---------------------------------------------------------------------------------------------
// Nodes nearby
// ---------------------------------------------------------------------------------------------

/// A node that was heard from.
#[derive(Debug)]
pub struct DiscoveredPeer {
    pub node_id: NodeId,
    pub display_name: String,
    /// Address and port, separated by a colon.
    pub address: String,
    pub pairing_code: String,
    /// Bound to the node id; not a sign of trust in its owner.
    pub public_identity: PublicIdentity,
    pub protocol_version: u8,
    pub last_seen_ms: u64,
}

/// What is known of a node nearby.
pub struct PeerData {
    pub node_id: Seq<u8>,
    pub display_name: Seq<char>,
    pub address: Seq<char>,
    pub pairing_code: Seq<char>,
    pub public_identity: PublicIdentityData,
    pub protocol_version: u8,
    pub last_seen_ms: u64,
}

impl View for DiscoveredPeer {
    type V = PeerData;

    open spec fn view(&self) -> PeerData {
        PeerData {
            node_id: self.node_id@,
            display_name: self.display_name@,
            address: self.address@,
            pairing_code: self.pairing_code@,
            public_identity: self.public_identity@,
            protocol_version: self.protocol_version,
            last_seen_ms: self.last_seen_ms,
        }
    }
}

impl Clone for DiscoveredPeer {
    fn clone(&self) -> (copy: Self)
        ensures
            copy@ == self@,
    {
        DiscoveredPeer {
            node_id: self.node_id,
            display_name: self.display_name.clone(),
            address: self.address.clone(),
            pairing_code: self.pairing_code.clone(),
            public_identity: self.public_identity.clone(),
            protocol_version: self.protocol_version,
            last_seen_ms: self.last_seen_ms,
        }
    }
}

impl Timed for DiscoveredPeer {
    open spec fn time_of(peer: PeerData) -> u64 {
        peer.last_seen_ms
    }

    fn time(&self) -> (time: u64) {
        self.last_seen_ms
    }
}

impl PeerData {
    /// The node was heard from less than the expiry time ago.
    pub open spec fn is_recent(self, now_ms: u64) -> bool {
        now_ms - self.last_seen_ms < EXPIRE_AFTER_MS
    }
}

/// What the node `local` learns from a packet that came from `ip` at `now_ms`; `None` where the
/// packet is no announcement, is its own, or claims a key that is not bound to its node id.
pub open spec fn learned(local: Seq<u8>, packet: Seq<u8>, ip: Seq<char>, now_ms: u64) -> Option<PeerData> {
    match announcement_in(packet) {
        Some(a) => if a.public_identity.node_id == local || !a.public_identity.bound() {
            None
        } else {
            Some(
                PeerData {
                    node_id: a.public_identity.node_id,
                    display_name: a.display_name,
                    address: ip + seq![':'] + decimal(a.service_port as nat),
                    pairing_code: pairing_text(local, a.public_identity.node_id),
                    public_identity: a.public_identity,
                    protocol_version: a.protocol_version,
                    last_seen_ms: now_ms,
                },
            )
        },
        None => None,
    }
}

/// The ids of nodes.
pub open spec fn ids(seen: Seq<PeerData>) -> Seq<Seq<u8>> {
    seen.map_values(|peer: PeerData| peer.node_id)
}

/// The nodes after one was heard from: its entry is replaced, or a new one is made.
pub open spec fn with_peer(seen: Seq<PeerData>, peer: PeerData) -> Seq<PeerData> {
    match ids(seen).index_of_first(peer.node_id) {
        Some(i) => seen.update(i, peer),
        None => seen.push(peer),
    }
}

/// The nodes after a packet was received.
pub open spec fn heard(seen: Seq<PeerData>, local: Seq<u8>, packet: Seq<u8>, ip: Seq<char>, now_ms: u64) -> Seq<PeerData> {
    match learned(local, packet, ip, now_ms) {
        Some(peer) => with_peer(seen, peer),
        None => seen,
    }
}

/// The nodes heard from recently.
pub open spec fn recent(seen: Seq<PeerData>, now_ms: u64) -> Seq<PeerData> {
    seen.filter(|peer: PeerData| peer.is_recent(now_ms))
}

/// The nodes heard from recently, the latest first.
pub open spec fn visible(seen: Seq<PeerData>, now_ms: u64) -> Seq<PeerData> {
    timeline::by_time::<DiscoveredPeer>(recent(seen, now_ms)).reverse()
}

/// An entry that can be in a list: of another node, with a bound key and the right code.
pub open spec fn is_sound(peer: PeerData, local: Seq<u8>) -> bool {
    &&& peer.node_id != local
    &&& peer.public_identity.node_id == peer.node_id
    &&& peer.public_identity.bound()
    &&& peer.pairing_code == pairing_text(local, peer.node_id)
}

/// All entries are sound, and no node has two.
pub open spec fn all_sound(seen: Seq<PeerData>, local: Seq<u8>) -> bool {
    &&& ids(seen).no_duplicates()
    &&& forall|i: int| 0 <= i < seen.len() ==> is_sound(#[trigger] seen[i], local)
}

/// The nodes a node has heard from.
pub struct LanDiscovery {
    local_node_id: NodeId,
    seen: Vec<DiscoveredPeer>,
}

impl View for LanDiscovery {
    type V = Seq<PeerData>;

    closed spec fn view(&self) -> Seq<PeerData> {
        table::views(self.seen@)
    }
}

impl LanDiscovery {
    /// The node that listens.
    pub closed spec fn local(self) -> Seq<u8> {
        self.local_node_id@
    }

    /// All entries are sound, and no node has two.
    pub open spec fn wf(self) -> bool {
        all_sound(self@, self.local())
    }

    /// No node heard from yet.
    pub fn new(local_node_id: NodeId) -> (discovery: LanDiscovery)
        ensures
            discovery.local() == local_node_id@,
            discovery@ == Seq::<PeerData>::empty(),
            discovery.wf(),
    {
        let discovery = LanDiscovery { local_node_id, seen: Vec::new() };
        assert(discovery@ =~= Seq::<PeerData>::empty());
        discovery
    }

    /// The position of a node's entry.
    fn position_of(&self, node_id: &NodeId) -> (position: Option<usize>)
        ensures
            match position {
                Some(i) => ids(self@).index_of_first(node_id@) == Some(i as int) && i
                    < self.seen@.len(),
                None => ids(self@).index_of_first(node_id@) is None,
            },
    {
        let ghost all = ids(self@);
        proof {
            all.index_of_first_ensures(node_id@);
        }
        let mut i: usize = 0;
        while i < self.seen.len()
            invariant
                i <= self.seen@.len(),
                all == ids(self@),
                all.len() == self.seen@.len(),
                forall|j: int| 0 <= j < i ==> #[trigger] all[j] != node_id@,
            decreases self.seen@.len() - i,
        {
            assert(all[i as int] == self.seen@[i as int]@.node_id);
            if bytes::same(self.seen[i].node_id.as_slice(), node_id.as_slice()) {
                assert(all.contains(node_id@));
                proof {
                    all.index_of_first_ensures(node_id@);
                }
                return Some(i);
            }
            i += 1;
        }
        None
    }

    /// Takes in a packet that came from `ip`; returns whether it was a sound announcement of
    /// another node.
    pub fn hear(&mut self, packet: &[u8], ip: &str, now_ms: u64) -> (kept: bool)
        ensures
            kept == (learned(old(self).local(), packet@, ip@, now_ms) is Some),
            final(self)@ == heard(old(self)@, old(self).local(), packet@, ip@, now_ms),
            final(self).local() == old(self).local(),
            old(self).wf() ==> final(self).wf(),
    {
        let announcement = match Announcement::decode(packet) {
            Some(announcement) => announcement,
            None => {
                return false;
            },
        };
        let node_id: NodeId = announcement.public_identity.node_id;
        if bytes::same(node_id.as_slice(), self.local_node_id.as_slice()) {
            return false;
        }
        if !announcement.public_identity.verify_binding() {
            return false;
        }
        let mut address = ip.to_owned();
        address.append(":");
        let port = port_text(announcement.service_port);
        address.append(port.as_str());
        proof {
            reveal_strlit(":");
            assert(":"@ =~= seq![':']);
        }
        let peer = DiscoveredPeer {
            node_id,
            display_name: announcement.display_name,
            address,
            pairing_code: pairing_code(&self.local_node_id, &node_id),
            public_identity: announcement.public_identity,
            protocol_version: announcement.protocol_version,
            last_seen_ms: now_ms,
        };
        assert(learned(self.local(), packet@, ip@, now_ms) == Some(peer@));
        proof {
            law_entries_stay_sound(self@, self.local(), packet@, ip@, now_ms);
        }
        match self.position_of(&node_id) {
            Some(i) => {
                self.seen.set(i, peer);
            },
            None => {
                self.seen.push(peer);
            },
        }
        assert(self@ =~= with_peer(old(self)@, peer@));
        true
    }

    /// The nodes heard from recently, the latest first. Others are forgotten.
    pub fn discovered_peers(&mut self, now_ms: u64) -> (peers: Vec<DiscoveredPeer>)
        ensures
            table::views(peers@) == visible(old(self)@, now_ms),
            final(self)@ == recent(old(self)@, now_ms),
            final(self).local() == old(self).local(),
            old(self).wf() ==> final(self).wf(),
    {
        let ghost all = self@;
        let ghost keeps = |peer: PeerData| peer.is_recent(now_ms);
        let mut kept: Vec<DiscoveredPeer> = Vec::new();
        let mut i: usize = 0;
        proof {
            reveal(Seq::filter);
            assert(table::views(kept@) =~= all.take(0).filter(keeps));
        }
        while i < self.seen.len()
            invariant
                i <= self.seen@.len(),
                all == self@,
                keeps == (|peer: PeerData| peer.is_recent(now_ms)),
                table::views(kept@) == all.take(i as int).filter(keeps),
            decreases self.seen@.len() - i,
        {
            let ghost before = kept@;
            assert(all[i as int] == self.seen@[i as int]@);
            if now_ms < self.seen[i].last_seen_ms || now_ms - self.seen[i].last_seen_ms
                < EXPIRE_AFTER_MS {
                kept.push(self.seen[i].clone());
            }
            proof {
                reveal(Seq::filter);
                assert(all.take(i + 1).drop_last() =~= all.take(i as int));
                assert(all.take(i + 1).last() == all[i as int]);
                if keeps(all[i as int]) {
                    assert(table::views(kept@) =~= table::views(before).push(all[i as int]));
                }
            }
            i += 1;
        }
        assert(all.take(i as int) =~= all);
        let ghost rest = recent(all, now_ms);
        let positions = timeline::order_by_time(&kept);
        let ghost ordered = timeline::by_time::<DiscoveredPeer>(rest);
        let mut peers: Vec<DiscoveredPeer> = Vec::new();
        let mut left: usize = positions.len();
        while left > 0
            invariant
                left <= positions@.len(),
                peers@.len() + left == positions@.len(),
                timeline::within(positions@, kept@.len()),
                ordered == timeline::picked(table::views(kept@), positions@),
                forall|j: int|
                    0 <= j < peers@.len() ==> (#[trigger] peers@[j])@ == ordered[ordered.len() - 1
                        - j],
            decreases left,
        {
            left -= 1;
            assert(positions@[left as int] < kept@.len());
            peers.push(kept[positions[left]].clone());
        }
        assert(table::views(peers@) =~= ordered.reverse());
        self.seen = kept;
        proof {
            if old(self).wf() {
                lemma_recent_sound(all, self.local(), now_ms);
            }
        }
        peers
    }
}

// ---------------------------------------------------------------------------------------------
// Laws
// ---------------------------------------------------------------------------------------------

/// Whatever arrives, every entry is of another node, has a key bound to its id, shows the right
/// code, and is the only one of its node.
pub proof fn law_entries_stay_sound(
    seen: Seq<PeerData>,
    local: Seq<u8>,
    packet: Seq<u8>,
    ip: Seq<char>,
    now_ms: u64,
)
    ensures
        all_sound(seen, local) ==> all_sound(heard(seen, local, packet, ip, now_ms), local),
{
    if all_sound(seen, local) {
        match learned(local, packet, ip, now_ms) {
            Some(peer) => {
                let all = ids(seen);
                all.index_of_first_ensures(peer.node_id);
                let after = with_peer(seen, peer);
                match all.index_of_first(peer.node_id) {
                    Some(i) => {
                        assert(ids(after) =~= all);
                    },
                    None => {
                        assert(ids(after) =~= all.push(peer.node_id));
                    },
                }
            },
            None => {},
        }
    }
}

proof fn lemma_recent_sound(seen: Seq<PeerData>, local: Seq<u8>, now_ms: u64)
    requires
        all_sound(seen, local),
    ensures
        all_sound(recent(seen, now_ms), local),
        forall|i: int|
            0 <= i < recent(seen, now_ms).len() ==> seen.contains(
                #[trigger] recent(seen, now_ms)[i],
            ),
    decreases seen.len(),
{
    reveal(Seq::filter);
    if seen.len() > 0 {
        let head = seen.drop_last();
        assert(ids(head) =~= ids(seen).drop_last());
        assert forall|i: int| 0 <= i < head.len() implies is_sound(#[trigger] head[i], local) by {
            assert(head[i] == seen[i]);
        }
        lemma_recent_sound(head, local, now_ms);
        let kept = recent(head, now_ms);
        let all = recent(seen, now_ms);
        let last = seen.last();
        assert forall|i: int| 0 <= i < kept.len() implies seen.contains(kept[i]) && ids(kept)[i]
            != last.node_id by {
            assert(head.contains(kept[i]));
            let k = choose|k: int| 0 <= k < head.len() && head[k] == kept[i];
            assert(seen[k] == kept[i]);
            assert(ids(seen)[k] != ids(seen)[seen.len() - 1]);
        }
        if last.is_recent(now_ms) {
            assert(all =~= kept.push(last));
            assert(ids(all) =~= ids(kept).push(last.node_id));
            assert(seen[seen.len() - 1] == last);
            assert forall|i: int| 0 <= i < all.len() implies seen.contains(#[trigger] all[i]) by {
                if i < kept.len() {
                    assert(all[i] == kept[i]);
                    assert(ids(kept)[i] == kept[i].node_id);
                }
            }
        } else {
            assert(all =~= kept);
            assert forall|i: int| 0 <= i < all.len() implies seen.contains(#[trigger] all[i]) by {
                assert(ids(kept)[i] == kept[i].node_id);
            }
        }
    }
}

/// A node that announced itself is visible, with its latest announcement, for as long as
/// announcements count as recent.
pub proof fn law_announced_node_is_visible(
    seen: Seq<PeerData>,
    local: Seq<u8>,
    packet: Seq<u8>,
    ip: Seq<char>,
    heard_ms: u64,
    now_ms: u64,
)
    requires
        learned(local, packet, ip, heard_ms) is Some,
        now_ms - heard_ms < EXPIRE_AFTER_MS,
    ensures
        visible(heard(seen, local, packet, ip, heard_ms), now_ms).contains(
            learned(local, packet, ip, heard_ms)->0,
        ),
{
    broadcast use {vstd::seq_lib::group_to_multiset_ensures, vstd::seq_lib::group_filter_ensures};

    let peer = learned(local, packet, ip, heard_ms)->0;
    ids(seen).index_of_first_ensures(peer.node_id);
    let after = with_peer(seen, peer);
    let at = match ids(seen).index_of_first(peer.node_id) {
        Some(i) => i,
        None => seen.len() as int,
    };
    assert(after[at] == peer);
    let keeps = |p: PeerData| p.is_recent(now_ms);
    let rest = after.filter(keeps);
    assert(keeps(after[at]));
    assert(rest.contains(peer));
    let ordered = timeline::by_time::<DiscoveredPeer>(rest);
    timeline::law_by_time_orders::<DiscoveredPeer>(rest);
    assert(rest.to_multiset().count(peer) > 0);
    assert(ordered.contains(peer));
    let k = choose|k: int| 0 <= k < ordered.len() && ordered[k] == peer;
    assert(ordered.reverse()[ordered.len() - 1 - k] == peer);
}

/// Only nodes heard from recently are visible, and a later one never stands behind an earlier.
pub proof fn law_visible_nodes_are_recent(seen: Seq<PeerData>, now_ms: u64)
    ensures
        forall|i: int|
            0 <= i < visible(seen, now_ms).len() ==> (#[trigger] visible(seen, now_ms)[i]).is_recent(
                now_ms,
            ),
        forall|i: int, j: int|
            0 <= i < j < visible(seen, now_ms).len() ==> (#[trigger] visible(
                seen,
                now_ms,
            )[i]).last_seen_ms >= (#[trigger] visible(seen, now_ms)[j]).last_seen_ms,
{
    broadcast use {vstd::seq_lib::group_to_multiset_ensures, vstd::seq_lib::group_filter_ensures};

    let keeps = |p: PeerData| p.is_recent(now_ms);
    let rest = seen.filter(keeps);
    let ordered = timeline::by_time::<DiscoveredPeer>(rest);
    timeline::law_by_time_orders::<DiscoveredPeer>(rest);
    let shown = visible(seen, now_ms);
    assert(shown =~= ordered.reverse());
    assert forall|i: int| 0 <= i < shown.len() implies (#[trigger] shown[i]).is_recent(now_ms) by {
        let at = ordered.len() - 1 - i;
        assert(ordered[at] == shown[i]);
        assert(ordered.contains(ordered[at]));
        assert(ordered.to_multiset().count(ordered[at]) > 0);
        assert(rest.contains(ordered[at]));
        let k = choose|k: int| 0 <= k < rest.len() && rest[k] == ordered[at];
        assert(keeps(rest[k]));
    }
    assert forall|i: int, j: int| 0 <= i < j < shown.len() implies (#[trigger] shown[i]).last_seen_ms
        >= (#[trigger] shown[j]).last_seen_ms by {
        assert(DiscoveredPeer::time_of(ordered[ordered.len() - 1 - j]) <= DiscoveredPeer::time_of(
            ordered[ordered.len() - 1 - i],
        ));
    }
}

/// The number that decimal digits stand for.
pub open spec fn number_read(digits: Seq<char>) -> int
    decreases digits.len(),
{
    if digits.len() == 0 {
        0
    } else {
        number_read(digits.drop_last()) * 10 + (digits.last() as int - '0' as int)
    }
}

/// Every character is a decimal digit.
pub open spec fn all_digits(text: Seq<char>) -> bool {
    forall|i: int| 0 <= i < text.len() ==> '0' as int <= (#[trigger] text[i]) as int <= '9' as int
}

/// A number in decimal reads back as the number, and has no needless zero in front.
pub proof fn law_decimal_reads_back(n: nat)
    ensures
        all_digits(decimal(n)),
        number_read(decimal(n)) == n,
        decimal(n).len() >= 1,
        decimal(n).len() > 1 ==> decimal(n)[0] != '0',
        n > 0 ==> decimal(n)[0] != '0',
    decreases n,
{
    if n < 10 {
        reveal_with_fuel(number_read, 2);
        assert(decimal(n).drop_last() =~= Seq::empty());
    } else {
        law_decimal_reads_back(n / 10);
        assert(decimal(n).drop_last() =~= decimal(n / 10));
        assert(decimal(n)[0] == decimal(n / 10)[0]);
        assert forall|i: int| 0 <= i < decimal(n).len() implies '0' as int <= (
        #[trigger] decimal(n)[i]) as int <= '9' as int by {
            if i < decimal(n / 10).len() {
                assert(decimal(n)[i] == decimal(n / 10)[i]);
            }
        }
    }
}

/// A pairing code is six digits: those of the first four bytes of the hash of both ids, the lower
/// first, without the millions.
pub proof fn law_pairing_code_is_taken_from_both_ids(a: NodeId, b: NodeId)
    ensures
        all_digits(pairing_text(a@, b@)),
        pairing_text(a@, b@).len() == 6,
        forall|k: int|
            0 <= k < 32 && (#[trigger] a@[k]) < b@[k] && (forall|j: int|
                0 <= j < k ==> (#[trigger] a@[j]) == b@[j]) ==> {
                let hash = primitives::blake3_digest(a@ + b@);
                number_read(pairing_text(a@, b@)) == (hash[0] * 0x100_0000 + hash[1] * 0x1_0000
                    + hash[2] * 0x100 + hash[3]) % 1_000_000
            },
        forall|k: int|
            0 <= k < 32 && (#[trigger] b@[k]) < a@[k] && (forall|j: int|
                0 <= j < k ==> (#[trigger] a@[j]) == b@[j]) ==> {
                let hash = primitives::blake3_digest(b@ + a@);
                number_read(pairing_text(a@, b@)) == (hash[0] * 0x100_0000 + hash[1] * 0x1_0000
                    + hash[2] * 0x100 + hash[3]) % 1_000_000
            },
{
    let n = bytes::be32_value(primitives::blake3_digest(pairing_input(a@, b@))) as int % 1_000_000;
    lemma_six_digits(n);
    bytes::lemma_order(a@, b@);
    assert forall|k: int|
        0 <= k < 32 && (#[trigger] a@[k]) < b@[k] && (forall|j: int|
            0 <= j < k ==> (#[trigger] a@[j]) == b@[j]) implies pairing_input(a@, b@) == a@ + b@ by {
        lemma_lower(a@, b@, k);
    }
    assert forall|k: int|
        0 <= k < 32 && (#[trigger] b@[k]) < a@[k] && (forall|j: int|
            0 <= j < k ==> (#[trigger] a@[j]) == b@[j]) implies pairing_input(a@, b@) == b@ + a@ by {
        lemma_lower(b@, a@, k);
    }
}

proof fn lemma_lower(a: Seq<u8>, b: Seq<u8>, k: int)
    requires
        a.len() == b.len(),
        0 <= k < a.len(),
        a[k] < b[k],
        forall|j: int| 0 <= j < k ==> (#[trigger] a[j]) == b[j],
    ensures
        bytes::not_after(a, b),
        !bytes::not_after(b, a),
{
    bytes::lemma_order(a, b);
}

proof fn lemma_six_digits(n: int)
    requires
        0 <= n < 1_000_000,
    ensures
        all_digits(six_digits(n)),
        number_read(six_digits(n)) == n,
{
    let d = six_digits(n);
    reveal_with_fuel(number_read, 7);
    let (d5, d4, d3, d2, d1) = (
        d.drop_last(),
        d.drop_last().drop_last(),
        d.drop_last().drop_last().drop_last(),
        d.drop_last().drop_last().drop_last().drop_last(),
        d.drop_last().drop_last().drop_last().drop_last().drop_last(),
    );
    assert(d1.drop_last() =~= Seq::empty());
    let (q1, q2, q3, q4, q5) = (n / 10, n / 100, n / 1_000, n / 10_000, n / 100_000);
    assert(q2 == q1 / 10 && q3 == q2 / 10 && q4 == q3 / 10 && q5 == q4 / 10);
    assert(number_read(d1) == q5);
    assert(number_read(d2) == q4);
    assert(number_read(d3) == q3);
    assert(number_read(d4) == q2);
    assert(number_read(d5) == q1);
}

/// Every announcement of another node with a key bound to its id is learned from, as it says, with
/// the address it came from and its own port; anything else teaches nothing.
pub proof fn law_announcement_is_learned(local: Seq<u8>, packet: Seq<u8>, ip: Seq<char>, now_ms: u64)
    ensures
        learned(local, packet, ip, now_ms) is Some <==> {
            &&& announcement_in(packet) is Some
            &&& announcement_in(packet)->0.public_identity.node_id != local
            &&& announcement_in(packet)->0.public_identity.x25519_signature.len() == 64
            &&& primitives::ed25519_accepts(
                announcement_in(packet)->0.public_identity.node_id,
                identity::binding_bytes(
                    announcement_in(packet)->0.public_identity.node_id,
                    announcement_in(packet)->0.public_identity.x25519_public,
                ),
                announcement_in(packet)->0.public_identity.x25519_signature,
            )
        },
        learned(local, packet, ip, now_ms) matches Some(peer) ==> {
            let a = announcement_in(packet)->0;
            let port = peer.address.skip(ip.len() as int + 1);
            &&& peer.node_id == a.public_identity.node_id
            &&& peer.public_identity == a.public_identity
            &&& peer.display_name == a.display_name
            &&& peer.protocol_version == a.protocol_version
            &&& peer.last_seen_ms == now_ms
            &&& peer.pairing_code == pairing_text(local, a.public_identity.node_id)
            &&& peer.address.len() > ip.len() + 1
            &&& peer.address.take(ip.len() as int) == ip
            &&& peer.address[ip.len() as int] == ':'
            &&& all_digits(port)
            &&& number_read(port) == a.service_port
        },
{
    if learned(local, packet, ip, now_ms) is Some {
        let peer = learned(local, packet, ip, now_ms)->0;
        let a = announcement_in(packet)->0;
        law_decimal_reads_back(a.service_port as nat);
        assert(peer.address.take(ip.len() as int) =~= ip);
        assert(peer.address.skip(ip.len() as int + 1) =~= decimal(a.service_port as nat));
    }
}

/// Hearing from one node changes nothing of another: every other entry stays where and as it is,
/// and the node heard from has the one entry that says what was learned.
pub proof fn law_other_entries_stay(
    seen: Seq<PeerData>,
    local: Seq<u8>,
    packet: Seq<u8>,
    ip: Seq<char>,
    now_ms: u64,
)
    ensures
        learned(local, packet, ip, now_ms) is None ==> heard(seen, local, packet, ip, now_ms)
            == seen,
        learned(local, packet, ip, now_ms) matches Some(peer) ==> {
            let after = heard(seen, local, packet, ip, now_ms);
            &&& after.contains(peer)
            &&& seen.len() <= after.len() <= seen.len() + 1
            &&& after.len() == seen.len() <==> exists|i: int|
                0 <= i < seen.len() && (#[trigger] seen[i]).node_id == peer.node_id
            &&& forall|i: int|
                0 <= i < seen.len() && (#[trigger] seen[i]).node_id != peer.node_id ==> after[i]
                    == seen[i]
        },
{
    if learned(local, packet, ip, now_ms) is Some {
        let peer = learned(local, packet, ip, now_ms)->0;
        let after = heard(seen, local, packet, ip, now_ms);
        let all = ids(seen);
        all.index_of_first_ensures(peer.node_id);
        match all.index_of_first(peer.node_id) {
            Some(i) => {
                assert(after[i] == peer);
                assert(seen[i].node_id == peer.node_id);
            },
            None => {
                assert(after[seen.len() as int] == peer);
                assert forall|i: int| 0 <= i < seen.len() implies (#[trigger] seen[i]).node_id
                    != peer.node_id by {
                    assert(all[i] == seen[i].node_id);
                }
            },
        }
    }
}

/// The nodes that are shown are all that were heard from less than ten seconds ago, and no others,
/// each once and as it was heard, the latest first.
pub proof fn law_recent_nodes_are_all_shown(seen: Seq<PeerData>, now_ms: u64) -> (from: Seq<int>)
    ensures
        from.len() == visible(seen, now_ms).len(),
        forall|k: int|
            0 <= k < from.len() ==> {
                &&& 0 <= (#[trigger] from[k]) < seen.len()
                &&& now_ms - seen[from[k]].last_seen_ms < 10_000
                &&& visible(seen, now_ms)[k] == seen[from[k]]
            },
        forall|k: int, l: int|
            0 <= k < l < from.len() ==> (#[trigger] from[k]) != (#[trigger] from[l])
                && seen[from[k]].last_seen_ms >= seen[from[l]].last_seen_ms,
        forall|i: int|
            0 <= i < seen.len() && now_ms - (#[trigger] seen[i]).last_seen_ms < 10_000
                ==> from.contains(i),
        forall|i: int|
            0 <= i < seen.len() && now_ms - (#[trigger] seen[i]).last_seen_ms < 10_000 ==> recent(
                seen,
                now_ms,
            ).contains(seen[i]),
{
    let keeps = |peer: PeerData| peer.is_recent(now_ms);
    table::lemma_positions(seen, keeps);
    let kept = table::positions(seen, keeps);
    let wanted = |i: int| keeps(seen[i]);
    let rest = recent(seen, now_ms);
    let order = timeline::law_by_time_rearranges::<DiscoveredPeer>(rest);
    let ordered = timeline::by_time::<DiscoveredPeer>(rest);
    let m = rest.len();
    let shown = visible(seen, now_ms);
    assert(shown.len() == m);
    let from = Seq::new(m, |k: int| kept[order[m - 1 - k]]);
    assert forall|k: int| 0 <= k < from.len() implies {
        &&& 0 <= (#[trigger] from[k]) < seen.len()
        &&& now_ms - seen[from[k]].last_seen_ms < 10_000
        &&& shown[k] == seen[from[k]]
    } by {
        let o = order[m - 1 - k];
        assert(0 <= o < m);
        assert(wanted(kept[o]));
        assert(ordered[m - 1 - k] == rest[o]);
        assert(rest[o] == seen[kept[o]]);
    }
    assert forall|k: int, l: int| 0 <= k < l < from.len() implies (#[trigger] from[k]) != (
    #[trigger] from[l]) && seen[from[k]].last_seen_ms >= seen[from[l]].last_seen_ms by {
        let (a, b) = (order[m - 1 - k], order[m - 1 - l]);
        assert(b != a);
        assert(DiscoveredPeer::time_of(rest[b]) <= DiscoveredPeer::time_of(rest[a]));
        assert(rest[a] == seen[kept[a]] && rest[b] == seen[kept[b]]);
        if a < b {
            assert(kept[a] < kept[b]);
        } else {
            assert(kept[b] < kept[a]);
        }
    }
    assert forall|i: int|
        0 <= i < seen.len() && now_ms - (#[trigger] seen[i]).last_seen_ms < 10_000 implies from.contains(
        i,
    ) && rest.contains(seen[i]) by {
        assert(wanted(i));
        let o = choose|o: int| 0 <= o < kept.len() && kept[o] == i;
        assert(rest[o] == seen[kept[o]]);
        assert(order.contains(o));
        let q = choose|q: int| 0 <= q < order.len() && order[q] == o;
        assert(from[m - 1 - q] == i);
    }
    from
}

} // verus!
