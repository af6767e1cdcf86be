use chacha20poly1305::aead::{Aead, KeyInit};
use chacha20poly1305::{Key, XChaCha20Poly1305, XNonce};
use sha2::{Digest, Sha256};
use vstd::prelude::*;
use vstd::utf8::*;

verus! {

/// The SHA-256 digest of a byte sequence.
pub uninterp spec fn sha256_spec(data: Seq<u8>) -> Seq<u8>;

/// The XChaCha20-Poly1305 sealing of `plaintext` under `key` and `nonce`, no
/// associated data: the encrypted bytes followed by the 16-byte tag.
pub uninterp spec fn xchacha20poly1305_seal(key: Seq<u8>, nonce: Seq<u8>, plaintext: Seq<u8>) -> Seq<u8>;

/// The XChaCha20-Poly1305 opening of `ciphertext` under `key` and `nonce`, no
/// associated data: the plaintext when the tag checks, else nothing.
pub uninterp spec fn xchacha20poly1305_open(key: Seq<u8>, nonce: Seq<u8>, ciphertext: Seq<u8>) -> Option<Seq<u8>>;

/// A message length that `chacha20poly1305` encrypts or decrypts: block 0 of
/// the keystream keys the MAC, which leaves `u32::MAX - 1` blocks of 64 bytes.
pub open spec fn aead_fits(len: nat) -> bool {
    len <= 274877906816
}

/// A message length on which `chacha20poly1305` panics: too long for the
/// keystream left after block 0, yet below its own refusal at `u32::MAX`
/// blocks, so the keystream step fails and unwraps the failure.
pub open spec fn aead_panics(len: nat) -> bool {
    274877906816 < len < 274877906880
}

/// A ciphertext length that opening never panics on: a tag alone, or a
/// message part whose length is not one of those in `aead_panics`.
pub open spec fn aead_opens(len: nat) -> bool {
    len < 16 || !aead_panics((len - 16) as nat)
}

/// `sha2::Sha256::digest`: the 32-byte digest of `data`, named by
/// `sha256_spec`.
#[verifier::external_body]
pub(crate) fn sha256(data: &[u8]) -> (r: Vec<u8>)
    ensures
        r@ == sha256_spec(data@),
        r@.len() == 32,
{
    Sha256::digest(data).to_vec()
}

/// `Aead::encrypt` of `chacha20poly1305::XChaCha20Poly1305` with a 32-byte key
/// and a 24-byte nonce (`from_slice` panics on other lengths). It panics on
/// the plaintext lengths in `aead_panics` (left out), fails on longer ones,
/// and succeeds on the lengths in `aead_fits`; the result is then the
/// plaintext's length plus the 16-byte tag, and opening it with the same key
/// and nonce gives the plaintext back (the cipher applies the same keystream
/// and computes the same tag over the same bytes).
#[verifier::external_body]
pub(crate) fn xchacha_seal(key: &[u8], nonce: &[u8], plaintext: &[u8]) -> (r: Option<Vec<u8>>)
    requires
        key@.len() == 32,
        nonce@.len() == 24,
        !aead_panics(plaintext@.len()),
    ensures
        r is Some <==> aead_fits(plaintext@.len()),
        r matches Some(c) ==> c@ == xchacha20poly1305_seal(key@, nonce@, plaintext@),
        r matches Some(c) ==> c@.len() == plaintext@.len() + 16,
        r matches Some(c) ==> xchacha20poly1305_open(key@, nonce@, c@) == Some(plaintext@),
{
    XChaCha20Poly1305::new(Key::from_slice(key)).encrypt(XNonce::from_slice(nonce), plaintext).ok()
}

/// `Aead::decrypt` of `chacha20poly1305::XChaCha20Poly1305` with a 32-byte key
/// and a 24-byte nonce: the plaintext when the tag checks, named by
/// `xchacha20poly1305_open`; such a plaintext is 16 bytes shorter than the
/// ciphertext. A ciphertext whose tag checks and whose message part has a
/// length in `aead_panics` makes it panic; those lengths are left out.
#[verifier::external_body]
pub(crate) fn xchacha_open(key: &[u8], nonce: &[u8], ciphertext: &[u8]) -> (r: Option<Vec<u8>>)
    requires
        key@.len() == 32,
        nonce@.len() == 24,
        aead_opens(ciphertext@.len()),
    ensures
        match r {
            Some(p) => xchacha20poly1305_open(key@, nonce@, ciphertext@) == Some(p@),
            None => xchacha20poly1305_open(key@, nonce@, ciphertext@) is None,
        },
        r matches Some(p) ==> p@.len() + 16 == ciphertext@.len(),
{
    XChaCha20Poly1305::new(Key::from_slice(key)).decrypt(XNonce::from_slice(nonce), ciphertext).ok()
}

/// `String::from_utf8`: the text that the bytes encode, when they are valid
/// UTF-8.
#[verifier::external_body]
pub(crate) fn utf8_decode(bytes: &[u8]) -> (r: Option<String>)
    ensures
        r is Some <==> valid_utf8(bytes@),
        r matches Some(s) ==> s@ == decode_utf8(bytes@),
{
    String::from_utf8(bytes.to_vec()).ok()
}

} // verus!
