//! Channel encryption: everyone who knows the passphrase can read the channel.

use vstd::prelude::*;
use vstd::string::*;
use vstd::utf8::*;

use crate::primitives;

verus! {

broadcast use vstd::string::group_string_axioms;

/// The key a passphrase stands for: the BLAKE3 hash of its UTF-8 bytes.
pub open spec fn channel_key_of(passphrase: Seq<char>) -> Seq<u8> {
    primitives::blake3_digest(encode_utf8(passphrase))
}

/// The key of a channel.
pub struct ChannelKey {
    key: [u8; 32],
}

impl View for ChannelKey {
    type V = Seq<u8>;

    closed spec fn view(&self) -> Seq<u8> {
        self.key@
    }
}

impl ChannelKey {
    /// The key for a passphrase.
    pub fn from_passphrase(passphrase: &str) -> (key: ChannelKey)
        ensures
            key@ == channel_key_of(passphrase@),
    {
        ChannelKey { key: primitives::blake3_hash(passphrase.as_bytes()) }
    }

    /// Encrypts under a fresh random nonce and returns the ciphertext and the nonce. Every
    /// holder of the key gets the plaintext back from them.
    pub fn encrypt(&self, plaintext: &[u8]) -> (sealed: (Vec<u8>, [u8; 24]))
        requires
            plaintext@.len() <= primitives::MAX_PLAINTEXT_LEN,
        ensures
            sealed.0@ == primitives::xchacha_sealed(self@, sealed.1@, Seq::empty(), plaintext@),
            sealed.0@.len() == plaintext@.len() + primitives::TAG_LEN,
            primitives::opened(self@, sealed.1@, Seq::empty(), sealed.0@) == Some(plaintext@),
    {
        let nonce: [u8; 24] = primitives::random_bytes();
        let none: Vec<u8> = Vec::new();
        assert(none@ =~= Seq::<u8>::empty());
        let ciphertext = primitives::xchacha_encrypt(&self.key, &nonce, none.as_slice(), plaintext);
        (ciphertext, nonce)
    }

    /// Decrypts, or `None` where the key, the nonce or the ciphertext is not the one of the
    /// encryption.
    pub fn decrypt(&self, ciphertext: &[u8], nonce: &[u8; 24]) -> (plaintext: Option<Vec<u8>>)
        ensures
            plaintext is Some <==> primitives::opened(self@, nonce@, Seq::empty(), ciphertext@)
                is Some,
            plaintext matches Some(p) ==> primitives::opened(
                self@,
                nonce@,
                Seq::empty(),
                ciphertext@,
            ) == Some(p@),
    {
        let none: Vec<u8> = Vec::new();
        assert(none@ =~= Seq::<u8>::empty());
        primitives::open(&self.key, nonce, none.as_slice(), ciphertext)
    }
}

/// The key is the hash of the whole passphrase, every character of it.
pub proof fn law_passphrase_is_the_key(passphrase: Seq<char>)
    ensures
        channel_key_of(passphrase) == primitives::blake3_digest(encode_utf8(passphrase)),
{
}

} // verus!
