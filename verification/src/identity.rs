//! Identities: one seed, an Ed25519 signing key and an X25519 key-agreement key.
//!
//! A node is known by its Ed25519 public key. Its X25519 secret is derived from the same seed in
//! a separate domain, so restoring the seed restores both keys and there is one secret to keep.
//! The X25519 public key is signed by the Ed25519 key, which is what stops a relay from handing
//! out a key of its own in someone else's name.

use vstd::prelude::*;
use vstd::string::*;
use vstd::utf8::*;

use crate::bytes;
use crate::primitives;

verus! {

broadcast use vstd::string::group_string_axioms;

/// An Ed25519 public key: the name a node goes by.
pub type NodeId = [u8; 32];

/// An Ed25519 signature.
pub type Sig = [u8; 64];

/// An X25519 public key.
pub type X25519Public = [u8; 32];

/// Domain in which the X25519 secret is derived from the seed.
pub const X25519_DERIVATION_CONTEXT: &'static str = "meshtalk 2026 x25519-static-key v1";

/// Domain of the signature that binds an X25519 key to its node.
pub const X25519_BINDING_DOMAIN: &'static str = "meshtalk/x25519-binding/v1";

/// The bytes signed to bind an X25519 public key to a node: domain, node id, key.
pub open spec fn binding_bytes(node_id: Seq<u8>, x25519: Seq<u8>) -> Seq<u8> {
    encode_utf8(X25519_BINDING_DOMAIN@) + node_id + x25519
}

/// The bytes signed to bind an X25519 public key to a node.
pub fn x25519_binding_payload(node_id: &NodeId, x25519_public: &X25519Public) -> (payload: Vec<u8>)
    ensures
        payload@ == binding_bytes(node_id@, x25519_public@),
{
    let mut buf: Vec<u8> = Vec::new();
    bytes::append(&mut buf, X25519_BINDING_DOMAIN.as_bytes());
    bytes::append(&mut buf, node_id.as_slice());
    bytes::append(&mut buf, x25519_public.as_slice());
    assert(buf@ =~= binding_bytes(node_id@, x25519_public@));
    buf
}

/// The X25519 secret that belongs to a seed.
pub open spec fn x25519_secret_of(seed: Seq<u8>) -> Seq<u8> {
    primitives::blake3_derived(X25519_DERIVATION_CONTEXT@, seed)
}

/// The X25519 public key that belongs to a seed.
pub open spec fn x25519_public_of(seed: Seq<u8>) -> Seq<u8> {
    primitives::x25519_public(x25519_secret_of(seed))
}

/// The shared secret of the owner of `seed` with the owner of the X25519 key `theirs`; `None`
/// where that key would force the outcome.
pub open spec fn agreed(seed: Seq<u8>, theirs: Seq<u8>) -> Option<Seq<u8>> {
    if primitives::x25519_contributory(x25519_secret_of(seed), theirs) {
        Some(primitives::x25519_shared(x25519_secret_of(seed), theirs))
    } else {
        None
    }
}

/// A node's own keys.
pub struct Identity {
    seed: [u8; 32],
    node_id: NodeId,
}

impl View for Identity {
    type V = Seq<u8>;

    /// An identity is its seed.
    closed spec fn view(&self) -> Seq<u8> {
        self.seed@
    }
}

impl Identity {
    #[verifier::type_invariant]
    spec fn well_formed(self) -> bool {
        self.node_id@ == primitives::ed25519_public(self.seed@)
    }

    /// The Ed25519 public key.
    pub closed spec fn id(&self) -> NodeId {
        self.node_id
    }

    /// A fresh identity from the operating system's random generator. Its seed is left to chance;
    /// its node id is the public key of that seed.
    pub fn generate() -> (identity: Identity)
        ensures
            identity@.len() == 32,
            identity.id()@ == primitives::ed25519_public(identity@),
    {
        Self::from_seed(primitives::generate_seed())
    }

    /// The identity with a given seed, always the same one.
    pub fn from_seed(seed: [u8; 32]) -> (identity: Identity)
        ensures
            identity@ == seed@,
            identity.id()@ == primitives::ed25519_public(seed@),
    {
        Identity { seed, node_id: primitives::ed25519_public_key(&seed) }
    }

    /// The seed this identity can be restored from. To be kept like a private key.
    pub fn seed(&self) -> (seed: [u8; 32])
        ensures
            seed@ == self@,
    {
        self.seed
    }

    /// The Ed25519 public key.
    pub fn node_id(&self) -> (id: NodeId)
        ensures
            id == self.id(),
            id@ == primitives::ed25519_public(self@),
    {
        proof {
            use_type_invariant(self);
        }
        self.node_id
    }

    /// Signs `data`. The signature is accepted under this identity's node id.
    pub fn sign(&self, data: &[u8]) -> (signature: Sig)
        ensures
            signature@ == primitives::ed25519_signature(self@, data@),
            primitives::ed25519_accepts(primitives::ed25519_public(self@), data@, signature@),
    {
        primitives::ed25519_sign(&self.seed, data)
    }

    fn x25519_secret(&self) -> (secret: [u8; 32])
        ensures
            secret@ == x25519_secret_of(self@),
    {
        primitives::blake3_derive_key(X25519_DERIVATION_CONTEXT, self.seed.as_slice())
    }

    /// The X25519 public key.
    pub fn x25519_public(&self) -> (public: X25519Public)
        ensures
            public@ == x25519_public_of(self@),
            x25519_secret_of(self@).len() == 32,
    {
        primitives::x25519_public_key(&self.x25519_secret())
    }

    /// Signs this identity's own X25519 public key, in the domain kept for that purpose.
    pub fn sign_x25519_public(&self) -> (signature: Sig)
        ensures
            signature@ == primitives::ed25519_signature(
                self@,
                binding_bytes(primitives::ed25519_public(self@), x25519_public_of(self@)),
            ),
            primitives::ed25519_accepts(
                primitives::ed25519_public(self@),
                binding_bytes(primitives::ed25519_public(self@), x25519_public_of(self@)),
                signature@,
            ),
    {
        let payload = x25519_binding_payload(&self.node_id(), &self.x25519_public());
        self.sign(payload.as_slice())
    }

    /// The Diffie-Hellman secret shared with the owner of an X25519 public key, or `None` where
    /// that key is of low order and would force the outcome. The owner of the key, from this
    /// identity's public key, gets the same.
    pub fn derive_shared_secret(&self, their_x25519_public: &X25519Public) -> (shared: Option<[u8; 32]>)
        ensures
            shared is Some <==> agreed(self@, their_x25519_public@) is Some,
            shared matches Some(s) ==> agreed(self@, their_x25519_public@) == Some(s@),
            forall|other: Seq<u8>|
                #![trigger agreed(other, x25519_public_of(self@))]
                x25519_secret_of(other).len() == 32 && x25519_public_of(other)
                    == their_x25519_public@ ==> agreed(other, x25519_public_of(self@)) == agreed(
                    self@,
                    their_x25519_public@,
                ),
    {
        let secret = self.x25519_secret();
        let (shared, contributory) = primitives::x25519_diffie_hellman(&secret, their_x25519_public);
        if !contributory {
            return None;
        }
        Some(shared)
    }
}

/// Whether `sig` over `data` was made by the node `node_id`.
pub fn verify(node_id: &NodeId, data: &[u8], sig: &Sig) -> (accepted: bool)
    ensures
        accepted == primitives::ed25519_accepts(node_id@, data@, sig@),
{
    primitives::ed25519_verify(node_id, data, sig)
}

/// The text a node is shown as: the first six hexadecimal digits of its id.
pub open spec fn short_id_text(node_id: Seq<u8>) -> Seq<char> {
    bytes::hex_text(node_id.take(3))
}

/// The text a node is shown as.
pub fn short_id(node_id: &NodeId) -> (text: String)
    ensures
        text@ == short_id_text(node_id@),
{
    bytes::hex_prefix(node_id.as_slice(), 3)
}

/// A short id is the start of the id it is short for: six digits.
pub proof fn law_short_id_starts_the_id(node_id: Seq<u8>)
    requires
        node_id.len() >= 3,
    ensures
        short_id_text(node_id).len() == 6,
        short_id_text(node_id) == bytes::hex_text(node_id).take(6),
{
    assert(short_id_text(node_id) =~= bytes::hex_text(node_id).take(6));
}

/// What a node signs to bind a key to itself says which node and which key: no other pair has the
/// same bytes.
pub proof fn law_binding_is_unambiguous(node: NodeId, key: X25519Public, other_node: NodeId, other_key: X25519Public)
    requires
        binding_bytes(node@, key@) == binding_bytes(other_node@, other_key@),
    ensures
        node == other_node,
        key == other_key,
{
    let domain = binding_bytes(node@, key@).take(binding_bytes(node@, key@).len() - 64);
    assert(binding_bytes(node@, key@) =~= domain + (node@ + key@));
    assert(binding_bytes(other_node@, other_key@) =~= domain + (other_node@ + other_key@));
    bytes::lemma_split(domain, node@ + key@, domain, other_node@ + other_key@);
    bytes::lemma_split(node@, key@, other_node@, other_key@);
    bytes::lemma_array_ext(node, other_node);
    bytes::lemma_array_ext(key, other_key);
}

} // verus!
