//! The cryptographic functions the protocol is built from. Each one is computed
//! by an outside crate; what it computes has a name here, and the contracts
//! state the few facts about the names that the protocol rests on.
use chacha20::cipher::{KeyIvInit, StreamCipher};
use chacha20poly1305::aead::Aead;
use chacha20poly1305::KeyInit;
use ed25519_dalek::{Signer, Verifier};
use vstd::prelude::*;

use crate::bytes::{bytes_of, xor_bytes};

verus! {

/// The longest plaintext that the authenticated cipher takes, in bytes: its
/// keystream has this many bytes for the message.
pub const AEAD_MAX: u64 = 0x3F_FFFF_FF80;

/// The length of the authentication tag that follows a ciphertext.
pub const TAG_LEN: usize = 16;

/// The X25519 function: `scalar` times the point with coordinate `point`.
pub uninterp spec fn x25519_of(scalar: Seq<u8>, point: Seq<u8>) -> Seq<u8>;

/// The coordinate of the point that X25519 public keys are multiples of.
pub open spec fn base_point_bytes() -> Seq<u8> {
    Seq::new(
        32,
        |i: int|
            if i == 0 {
                9u8
            } else {
                0u8
            },
    )
}

/// The X25519 public key of a private one.
pub open spec fn x25519_public(scalar: Seq<u8>) -> Seq<u8> {
    x25519_of(scalar, base_point_bytes())
}

/// The X25519 base point.
pub fn base_point() -> (point: [u8; 32])
    ensures
        point@ == base_point_bytes(),
{
    let mut point: [u8; 32] = [0u8;32];
    point[0] = 9;
    assert(point@ =~= base_point_bytes());
    point
}

/// `x25519_dalek::x25519`, the function of RFC 7748. Claimed of it: its result
/// depends on the two arguments alone, and the owners of two private keys, each
/// using the other's public key, get the same result.
#[verifier::external_body]
pub(crate) fn x25519(scalar: &[u8; 32], point: &[u8; 32]) -> (product: [u8; 32])
    ensures
        product@ == x25519_of(scalar@, point@),
        forall|other: Seq<u8>|
            other.len() == 32 && point@ == x25519_public(other) ==> #[trigger] x25519_of(
                other,
                x25519_public(scalar@),
            ) == product@,
{
    x25519_dalek::x25519(*scalar, *point)
}

/// The Ed25519 public key of a 32-byte secret seed.
pub uninterp spec fn ed25519_public(seed: Seq<u8>) -> Seq<u8>;

/// The Ed25519 signature of a message under a secret seed.
pub uninterp spec fn ed25519_signature(seed: Seq<u8>, message: Seq<u8>) -> Seq<u8>;

/// Whether 32 bytes encode an Ed25519 public key.
pub uninterp spec fn ed25519_is_key(key: Seq<u8>) -> bool;

/// Whether a signature of a message is good under a public key.
pub uninterp spec fn ed25519_accepts(key: Seq<u8>, message: Seq<u8>, signature: Seq<u8>) -> bool;

/// `ed25519_dalek::SigningKey::verifying_key` of the key that the seed makes.
/// Claimed of it: it depends on the seed alone and is the encoding of a key.
#[verifier::external_body]
pub(crate) fn ed25519_public_key(seed: &[u8; 32]) -> (key: [u8; 32])
    ensures
        key@ == ed25519_public(seed@),
        ed25519_is_key(key@),
{
    ed25519_dalek::SigningKey::from_bytes(seed).verifying_key().to_bytes()
}

/// `ed25519_dalek::Signer::sign` with the key that the seed makes. Claimed of
/// it: the signature depends on the seed and the message alone, and is good
/// under the seed's public key.
#[verifier::external_body]
pub(crate) fn ed25519_sign(seed: &[u8; 32], message: &[u8]) -> (signature: [u8; 64])
    ensures
        signature@ == ed25519_signature(seed@, message@),
        ed25519_accepts(ed25519_public(seed@), message@, signature@),
{
    ed25519_dalek::SigningKey::from_bytes(seed).sign(message).to_bytes()
}

/// `ed25519_dalek::VerifyingKey::from_bytes`, of which only success is kept.
/// Claimed of it: whether it succeeds depends on the bytes alone.
#[verifier::external_body]
pub(crate) fn ed25519_check_key(key: &[u8; 32]) -> (good: bool)
    ensures
        good == ed25519_is_key(key@),
{
    ed25519_dalek::VerifyingKey::from_bytes(key).is_ok()
}

/// `ed25519_dalek::Verifier::verify` with the public key that the bytes encode;
/// bytes that encode no key accept no signature. Claimed of it: the answer
/// depends on the key, the message and the signature alone.
#[verifier::external_body]
pub(crate) fn ed25519_verify(key: &[u8; 32], message: &[u8], signature: &[u8; 64]) -> (good: bool)
    ensures
        good == ed25519_accepts(key@, message@, signature@),
{
    match ed25519_dalek::VerifyingKey::from_bytes(key) {
        Ok(vk) => vk.verify(message, &ed25519_dalek::Signature::from_bytes(signature)).is_ok(),
        Err(_) => false,
    }
}

/// The XChaCha20-Poly1305 ciphertext of a plaintext, its tag at the end.
pub uninterp spec fn aead_sealed(key: Seq<u8>, nonce: Seq<u8>, plain: Seq<u8>) -> Seq<u8>;

/// The plaintext of an XChaCha20-Poly1305 ciphertext whose tag is right.
pub uninterp spec fn aead_opened(key: Seq<u8>, nonce: Seq<u8>, sealed: Seq<u8>) -> Option<Seq<u8>>;

/// `chacha20poly1305::XChaCha20Poly1305::encrypt` without associated data.
/// Claimed of it: it succeeds on every plaintext of at most `AEAD_MAX` bytes,
/// the ciphertext depends on the arguments alone and is `TAG_LEN` bytes longer,
/// and decrypting it under the same key and nonce gives the plaintext back.
#[verifier::external_body]
pub(crate) fn aead_encrypt(shared: &[u8; 32], nonce: &[u8; 24], plain: &[u8]) -> (sealed: Vec<u8>)
    requires
        plain@.len() <= AEAD_MAX,
    ensures
        sealed@ == aead_sealed(shared@, nonce@, plain@),
        sealed@.len() == plain@.len() + TAG_LEN,
        aead_opened(shared@, nonce@, sealed@) == Some(plain@),
{
    chacha20poly1305::XChaCha20Poly1305::new(chacha20poly1305::Key::from_slice(shared)).encrypt(
        chacha20poly1305::XNonce::from_slice(nonce),
        plain,
    ).expect("aead encrypt")
}

/// `chacha20poly1305::XChaCha20Poly1305::decrypt` without associated data, of
/// whose failure nothing is kept. Claimed of it: the outcome depends on the
/// arguments alone, and a ciphertext that decrypts is `TAG_LEN` bytes longer than
/// its plaintext.
#[verifier::external_body]
pub(crate) fn aead_decrypt(shared: &[u8; 32], nonce: &[u8; 24], sealed: &[u8]) -> (plain: Option<
    Vec<u8>,
>)
    requires
        sealed@.len() <= AEAD_MAX + TAG_LEN,
    ensures
        bytes_of(plain) == aead_opened(shared@, nonce@, sealed@),
        plain matches Some(p) ==> sealed@.len() == p@.len() + TAG_LEN,
{
    chacha20poly1305::XChaCha20Poly1305::new(chacha20poly1305::Key::from_slice(shared)).decrypt(
        chacha20poly1305::XNonce::from_slice(nonce),
        sealed,
    ).ok()
}

/// The first bytes of the ChaCha20 keystream of a key and a 12-byte nonce.
pub uninterp spec fn chacha20_keystream(key: Seq<u8>, nonce: Seq<u8>) -> Seq<u8>;

/// `chacha20::ChaCha20`'s `apply_keystream` on a fresh cipher. Claimed of it:
/// the data is combined by exclusive or with a keystream that depends on the key
/// and the nonce alone.
#[verifier::external_body]
pub(crate) fn chacha20_apply(key: &[u8; 32], nonce: &[u8; 12], data: &mut [u8; 8])
    ensures
        final(data)@ == xor_bytes(old(data)@, chacha20_keystream(key@, nonce@)),
{
    chacha20::ChaCha20::new(key.into(), nonce.into()).apply_keystream(data);
}

/// The 32-byte key that BLAKE3 derives from key material in a context.
pub uninterp spec fn blake3_derived(context: Seq<char>, material: Seq<u8>) -> Seq<u8>;

/// `blake3::derive_key`. Claimed of it: the key depends on the context and the
/// material alone.
#[verifier::external_body]
pub(crate) fn blake3_derive_key(context: &str, material: &[u8; 32]) -> (key: [u8; 32])
    ensures
        key@ == blake3_derived(context@, material@),
{
    blake3::derive_key(context, material)
}

} // verus!
