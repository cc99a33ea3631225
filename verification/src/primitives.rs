//! The cryptographic and random primitives the rest of the crate is built on.
//!
//! Every function here that is marked as having an external body calls one function of a
//! cryptography crate. What it returns is given a name, so that contracts elsewhere can say
//! exactly which key, message and nonce went into a signature or a ciphertext, and beside the
//! name stand the few algebraic facts the protocol relies on: a signature made with a seed is
//! accepted under the public key of that seed, a sealed message opens to what was sealed, and a
//! Diffie-Hellman secret is the same from both ends.

use chacha20poly1305::aead::{Aead, AeadCore, Payload};
use chacha20poly1305::{Key, KeyInit, XChaCha20Poly1305, XNonce};
use ed25519_dalek::{Signature, Signer, SigningKey, Verifier, VerifyingKey};
use rand::rngs::OsRng;
use rand::RngCore;
use vstd::prelude::*;
use x25519_dalek::{PublicKey, StaticSecret};

verus! {

/// Bytes the authentication tag adds to a sealed message.
pub const TAG_LEN: usize = 16;

/// The longest plaintext that is ever sealed: the cipher's 32-bit block counter covers it.
pub const MAX_PLAINTEXT_LEN: u64 = 0x3f_ffff_ff00;

// ---------------------------------------------------------------------------------------------
// Ed25519
// ---------------------------------------------------------------------------------------------

/// The Ed25519 public key of a 32-byte seed.
pub uninterp spec fn ed25519_public(seed: Seq<u8>) -> Seq<u8>;

/// The Ed25519 signature over `data` made with the key of `seed`.
pub uninterp spec fn ed25519_signature(seed: Seq<u8>, data: Seq<u8>) -> Seq<u8>;

/// Whether `signature` over `data` is accepted under the public key `public`.
pub uninterp spec fn ed25519_accepts(public: Seq<u8>, data: Seq<u8>, signature: Seq<u8>) -> bool;

/// Calls `ed25519_dalek::SigningKey::generate` with the operating system's generator and hands
/// out the seed. Nothing is known of the seed.
#[verifier::external_body]
pub(crate) fn generate_seed() -> (seed: [u8; 32]) {
    SigningKey::generate(&mut OsRng).to_bytes()
}

/// Calls `ed25519_dalek::SigningKey::verifying_key`: the public key depends on the seed alone.
#[verifier::external_body]
pub(crate) fn ed25519_public_key(seed: &[u8; 32]) -> (public: [u8; 32])
    ensures
        public@ == ed25519_public(seed@),
{
    SigningKey::from_bytes(seed).verifying_key().to_bytes()
}

/// Calls `ed25519_dalek::SigningKey::sign`. Signing is deterministic, and a signature is
/// accepted under the public key of the seed that made it.
#[verifier::external_body]
pub(crate) fn ed25519_sign(seed: &[u8; 32], data: &[u8]) -> (signature: [u8; 64])
    ensures
        signature@ == ed25519_signature(seed@, data@),
        ed25519_accepts(ed25519_public(seed@), data@, signature@),
{
    SigningKey::from_bytes(seed).sign(data).to_bytes()
}

/// Calls `ed25519_dalek::VerifyingKey::verify`. Bytes that are no curve point are no public
/// key, and nothing is accepted under them.
#[verifier::external_body]
pub(crate) fn ed25519_verify(public: &[u8; 32], data: &[u8], signature: &[u8; 64]) -> (accepted: bool)
    ensures
        accepted == ed25519_accepts(public@, data@, signature@),
{
    match VerifyingKey::from_bytes(public) {
        Ok(key) => key.verify(data, &Signature::from_bytes(signature)).is_ok(),
        Err(_) => false,
    }
}

// ---------------------------------------------------------------------------------------------
// X25519
// ---------------------------------------------------------------------------------------------

/// The X25519 public key of a 32-byte secret.
pub uninterp spec fn x25519_public(secret: Seq<u8>) -> Seq<u8>;

/// The X25519 Diffie-Hellman output of a secret and another party's public key.
pub uninterp spec fn x25519_shared(secret: Seq<u8>, public: Seq<u8>) -> Seq<u8>;

/// Whether both parties contributed to that output: a low-order public key forces it to zero.
pub open spec fn x25519_contributory(secret: Seq<u8>, public: Seq<u8>) -> bool {
    x25519_shared(secret, public) != Seq::new(32, |i: int| 0u8)
}

/// Converts an `x25519_dalek::StaticSecret` to its `PublicKey`.
#[verifier::external_body]
pub(crate) fn x25519_public_key(secret: &[u8; 32]) -> (public: [u8; 32])
    ensures
        public@ == x25519_public(secret@),
{
    PublicKey::from(&StaticSecret::from(*secret)).to_bytes()
}

/// Calls `x25519_dalek::StaticSecret::diffie_hellman` and hands out the shared bytes together
/// with `SharedSecret::was_contributory`, which tells whether they are other than all zero.
/// Scalar multiplication commutes: the owner of the public key gets the same bytes from this
/// party's public key.
#[verifier::external_body]
pub(crate) fn x25519_diffie_hellman(secret: &[u8; 32], public: &[u8; 32]) -> (shared: ([u8; 32], bool))
    ensures
        shared.0@ == x25519_shared(secret@, public@),
        shared.1 == x25519_contributory(secret@, public@),
        forall|other: Seq<u8>|
            other.len() == 32 && x25519_public(other) == public@ ==> shared.0@
                == #[trigger] x25519_shared(other, x25519_public(secret@)),
{
    let shared = StaticSecret::from(*secret).diffie_hellman(&PublicKey::from(*public));
    (shared.to_bytes(), shared.was_contributory())
}

// ---------------------------------------------------------------------------------------------
// BLAKE3
// ---------------------------------------------------------------------------------------------

/// The 32-byte BLAKE3 hash of `data`.
pub uninterp spec fn blake3_digest(data: Seq<u8>) -> Seq<u8>;

/// The 32-byte key BLAKE3 derives from `material` in the domain named by `context`.
pub uninterp spec fn blake3_derived(context: Seq<char>, material: Seq<u8>) -> Seq<u8>;

/// Calls `blake3::hash`.
#[verifier::external_body]
pub(crate) fn blake3_hash(data: &[u8]) -> (digest: [u8; 32])
    ensures
        digest@ == blake3_digest(data@),
{
    *blake3::hash(data).as_bytes()
}

/// Calls `blake3::derive_key`.
#[verifier::external_body]
pub(crate) fn blake3_derive_key(context: &str, material: &[u8]) -> (key: [u8; 32])
    ensures
        key@ == blake3_derived(context@, material@),
{
    blake3::derive_key(context, material)
}

// ---------------------------------------------------------------------------------------------
// XChaCha20-Poly1305
// ---------------------------------------------------------------------------------------------

/// The XChaCha20-Poly1305 ciphertext, tag at the end, of `plaintext` under a key and a nonce
/// with the associated data `aad`.
pub uninterp spec fn xchacha_sealed(
    key: Seq<u8>,
    nonce: Seq<u8>,
    aad: Seq<u8>,
    plaintext: Seq<u8>,
) -> Seq<u8>;

/// What XChaCha20-Poly1305 decryption of `ciphertext` gives; `None` where the tag does not match.
pub uninterp spec fn xchacha_opened(
    key: Seq<u8>,
    nonce: Seq<u8>,
    aad: Seq<u8>,
    ciphertext: Seq<u8>,
) -> Option<Seq<u8>>;

/// Calls `chacha20poly1305::XChaCha20Poly1305::encrypt`. The ciphertext is one tag longer than
/// the plaintext, and decryption with the same key, nonce and associated data gives the
/// plaintext back.
#[verifier::external_body]
pub(crate) fn xchacha_encrypt(key: &[u8; 32], nonce: &[u8; 24], aad: &[u8], plaintext: &[u8]) -> (ciphertext: Vec<u8>)
    requires
        plaintext@.len() <= MAX_PLAINTEXT_LEN,
    ensures
        ciphertext@ == xchacha_sealed(key@, nonce@, aad@, plaintext@),
        ciphertext@.len() == plaintext@.len() + TAG_LEN,
        xchacha_opened(key@, nonce@, aad@, ciphertext@) == Some(plaintext@),
{
    XChaCha20Poly1305::new(Key::from_slice(key))
        .encrypt(XNonce::from_slice(nonce), Payload { msg: plaintext, aad })
        .expect("a plaintext within the counter range is always sealed")
}

/// Calls `chacha20poly1305::XChaCha20Poly1305::decrypt`.
#[verifier::external_body]
pub(crate) fn xchacha_decrypt(key: &[u8; 32], nonce: &[u8; 24], aad: &[u8], ciphertext: &[u8]) -> (plaintext: Option<Vec<u8>>)
    requires
        ciphertext@.len() <= MAX_PLAINTEXT_LEN + TAG_LEN,
    ensures
        plaintext is Some <==> xchacha_opened(key@, nonce@, aad@, ciphertext@) is Some,
        plaintext matches Some(p) ==> xchacha_opened(key@, nonce@, aad@, ciphertext@) == Some(p@),
{
    XChaCha20Poly1305::new(Key::from_slice(key))
        .decrypt(XNonce::from_slice(nonce), Payload { msg: ciphertext, aad })
        .ok()
}

/// Calls `chacha20poly1305::XChaCha20Poly1305::generate_nonce` with the operating system's
/// generator. Nothing is known of the nonce.
#[verifier::external_body]
pub(crate) fn generate_nonce() -> (nonce: [u8; 24]) {
    XChaCha20Poly1305::generate_nonce(&mut OsRng).into()
}

/// What opening a ciphertext gives. One longer than any sealed message is never opened.
pub open spec fn opened(key: Seq<u8>, nonce: Seq<u8>, aad: Seq<u8>, ciphertext: Seq<u8>) -> Option<Seq<u8>> {
    if ciphertext.len() > MAX_PLAINTEXT_LEN + TAG_LEN {
        None
    } else {
        xchacha_opened(key, nonce, aad, ciphertext)
    }
}

/// Opens a ciphertext of any length.
pub fn open(key: &[u8; 32], nonce: &[u8; 24], aad: &[u8], ciphertext: &[u8]) -> (plaintext: Option<Vec<u8>>)
    ensures
        plaintext is Some <==> opened(key@, nonce@, aad@, ciphertext@) is Some,
        plaintext matches Some(p) ==> opened(key@, nonce@, aad@, ciphertext@) == Some(p@),
{
    if ciphertext.len() as u64 > MAX_PLAINTEXT_LEN + TAG_LEN as u64 {
        None
    } else {
        xchacha_decrypt(key, nonce, aad, ciphertext)
    }
}

// ---------------------------------------------------------------------------------------------
// Randomness
// ---------------------------------------------------------------------------------------------

/// Calls `rand::rngs::OsRng::fill_bytes`. Nothing is known of the bytes.
#[verifier::external_body]
pub(crate) fn random_bytes<const N: usize>() -> (bytes: [u8; N]) {
    let mut bytes = [0u8; N];
    OsRng.fill_bytes(&mut bytes);
    bytes
}

} // verus!
