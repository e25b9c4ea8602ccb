//! The cryptographic and encoding primitives the vault builds on.
//!
//! Every function here hands its arguments to another crate, or to a part of
//! the standard library that has no specification yet, and states what comes
//! back. Nothing in this file is proved: the contracts record what the
//! called code documents, and the rest of the library is proved from them.

use aes_gcm::aead::Aead;
use aes_gcm::aead::KeyInit;
use base64::Engine;
use rand::RngCore;
use sha2::Digest;
use vstd::prelude::*;
use vstd::utf8::*;
use zeroize::Zeroize;

verus! {

/// The SHA-256 digest of `data`.
pub uninterp spec fn sha256_of(data: Seq<u8>) -> Seq<u8>;

/// The MD5 digest of `data`.
pub uninterp spec fn md5_of(data: Seq<u8>) -> Seq<u8>;

/// The standard-alphabet base64 text of `data`, padded with `=`.
pub uninterp spec fn base64_padded(data: Seq<u8>) -> Seq<char>;

/// The standard-alphabet base64 text of `data`, without padding.
pub uninterp spec fn base64_unpadded(data: Seq<u8>) -> Seq<char>;

/// The bytes that unpadded standard base64 `text` stands for, if it is valid.
pub uninterp spec fn base64_unpadded_bytes(text: Seq<char>) -> Option<Seq<u8>>;

/// The 32-byte Argon2id (version 0x13) key for a password and salt under the
/// given memory cost in KiB, pass count and lane count.
pub uninterp spec fn argon2id_key(
    password: Seq<u8>,
    salt: Seq<u8>,
    mem_kib: u32,
    iterations: u32,
    parallelism: u32,
) -> Seq<u8>;

/// The AES-256-GCM ciphertext (with its tag) of `plaintext`.
pub uninterp spec fn aes256_gcm_seal(key: Seq<u8>, nonce: Seq<u8>, plaintext: Seq<u8>) -> Seq<u8>;

/// The plaintext that AES-256-GCM recovers from `ciphertext`, if it authenticates.
pub uninterp spec fn aes256_gcm_open(key: Seq<u8>, nonce: Seq<u8>, ciphertext: Seq<u8>) -> Option<
    Seq<u8>,
>;

/// The ChaCha20-Poly1305 ciphertext (with its tag) of `plaintext`.
pub uninterp spec fn chacha20_poly1305_seal(
    key: Seq<u8>,
    nonce: Seq<u8>,
    plaintext: Seq<u8>,
) -> Seq<u8>;

/// The plaintext that ChaCha20-Poly1305 recovers from `ciphertext`, if it authenticates.
pub uninterp spec fn chacha20_poly1305_open(
    key: Seq<u8>,
    nonce: Seq<u8>,
    ciphertext: Seq<u8>,
) -> Option<Seq<u8>>;

/// Whether a byte string of length `n` can be base64-encoded: the length of
/// the text must fit in `usize`.
pub open spec fn base64_encodable(n: nat) -> bool {
    (n / 3) * 4 + 4 <= usize::MAX
}

/// The inputs that Argon2id accepts: at least 8 KiB of memory and 8 KiB per
/// lane, at least one pass, between 1 and 2^24 - 1 lanes, a salt of at least
/// 8 bytes, and password and salt shorter than 2^32 bytes.
pub open spec fn argon2id_accepts(
    password_len: nat,
    salt_len: nat,
    mem_kib: u32,
    iterations: u32,
    parallelism: u32,
) -> bool {
    &&& mem_kib >= 8
    &&& mem_kib >= 8 * parallelism
    &&& iterations >= 1
    &&& 1 <= parallelism <= 0xFF_FFFF
    &&& 8 <= salt_len <= 0xFFFF_FFFF
    &&& password_len <= 0xFFFF_FFFF
}

/// `sha2::Sha256::digest`: the 32-byte SHA-256 digest of `data`.
#[verifier::external_body]
pub(crate) fn sha256(data: &[u8]) -> (digest: Vec<u8>)
    ensures
        digest@ == sha256_of(data@),
        digest@.len() == 32,
{
    sha2::Sha256::digest(data).to_vec()
}

/// `md5::compute`: the 16-byte MD5 digest of `data`.
#[verifier::external_body]
pub(crate) fn md5(data: &[u8]) -> (digest: Vec<u8>)
    ensures
        digest@ == md5_of(data@),
        digest@.len() == 16,
{
    md5::compute(data).0.to_vec()
}

/// `encode` of base64's `STANDARD` engine: the padded base64 text of `data`.
/// The call panics when the length of the text overflows `usize`.
#[verifier::external_body]
pub(crate) fn base64_encode_padded(data: &[u8]) -> (text: String)
    requires
        base64_encodable(data@.len()),
    ensures
        text@ == base64_padded(data@),
{
    base64::engine::general_purpose::STANDARD.encode(data)
}

/// `encode` of base64's `STANDARD_NO_PAD` engine: the unpadded base64 text of
/// `data`, which the same engine decodes back to `data`. The call panics when
/// the length of the text overflows `usize`.
#[verifier::external_body]
pub(crate) fn base64_encode_unpadded(data: &[u8]) -> (text: String)
    requires
        base64_encodable(data@.len()),
    ensures
        text@ == base64_unpadded(data@),
        base64_unpadded_bytes(text@) == Some(data@),
{
    base64::engine::general_purpose::STANDARD_NO_PAD.encode(data)
}

/// `decode` of base64's `STANDARD_NO_PAD` engine: the bytes that `text`
/// stands for, or `None` where it is no canonical unpadded base64.
#[verifier::external_body]
pub(crate) fn base64_decode_unpadded(text: &str) -> (bytes: Option<Vec<u8>>)
    ensures
        match bytes {
            Some(b) => base64_unpadded_bytes(text@) == Some(b@),
            None => base64_unpadded_bytes(text@) is None,
        },
{
    base64::engine::general_purpose::STANDARD_NO_PAD.decode(text).ok()
}

/// `Argon2::hash_password_into` with Argon2id, version 0x13 and a 32-byte
/// output. It succeeds exactly on the inputs that `argon2id_accepts`
/// describes. The lane count is bounded so that the crate's own check
/// `8 * parallelism` stays within `u32`.
#[verifier::external_body]
pub(crate) fn argon2id(
    password: &[u8],
    salt: &[u8],
    mem_kib: u32,
    iterations: u32,
    parallelism: u32,
) -> (key: Option<Vec<u8>>)
    requires
        parallelism <= 0x1FFF_FFFF,
    ensures
        key is Some <==> argon2id_accepts(
            password@.len(),
            salt@.len(),
            mem_kib,
            iterations,
            parallelism,
        ),
        key is Some ==> key.unwrap()@ == argon2id_key(
            password@,
            salt@,
            mem_kib,
            iterations,
            parallelism,
        ),
        key is Some ==> key.unwrap()@.len() == 32,
{
    let params = argon2::Params::new(mem_kib, iterations, parallelism, Some(32)).ok()?;
    let hasher = argon2::Argon2::new(argon2::Algorithm::Argon2id, argon2::Version::V0x13, params);
    let mut out = vec![0u8; 32];
    hasher.hash_password_into(password, salt, &mut out).ok()?;
    Some(out)
}

/// `Aead::encrypt` of `aes_gcm::Aes256Gcm` with no associated data. It fails
/// only for a plaintext longer than 2^36 bytes; the result is 16 bytes
/// longer than the plaintext and decrypts to it under the same key and nonce.
#[verifier::external_body]
pub(crate) fn aes256_gcm_encrypt(key: &[u8], nonce: &[u8], plaintext: &[u8]) -> (sealed: Option<
    Vec<u8>,
>)
    requires
        key@.len() == 32,
        nonce@.len() == 12,
        plaintext@.len() + 16 <= usize::MAX,
    ensures
        sealed is Some <==> plaintext@.len() <= 0x10_0000_0000,
        sealed is Some ==> sealed.unwrap()@ == aes256_gcm_seal(key@, nonce@, plaintext@),
        sealed is Some ==> sealed.unwrap()@.len() == plaintext@.len() + 16,
        sealed is Some ==> aes256_gcm_open(key@, nonce@, sealed.unwrap()@) == Some(plaintext@),
{
    let cipher = aes_gcm::Aes256Gcm::new(aes_gcm::Key::<aes_gcm::Aes256Gcm>::from_slice(key));
    cipher.encrypt(aes_gcm::Nonce::from_slice(nonce), plaintext).ok()
}

/// `Aead::decrypt` of `aes_gcm::Aes256Gcm` with no associated data: the
/// plaintext, or `None` where the ciphertext does not authenticate.
#[verifier::external_body]
pub(crate) fn aes256_gcm_decrypt(key: &[u8], nonce: &[u8], ciphertext: &[u8]) -> (opened: Option<
    Vec<u8>,
>)
    requires
        key@.len() == 32,
        nonce@.len() == 12,
    ensures
        match opened {
            Some(p) => aes256_gcm_open(key@, nonce@, ciphertext@) == Some(p@),
            None => aes256_gcm_open(key@, nonce@, ciphertext@) is None,
        },
{
    let cipher = aes_gcm::Aes256Gcm::new(aes_gcm::Key::<aes_gcm::Aes256Gcm>::from_slice(key));
    cipher.decrypt(aes_gcm::Nonce::from_slice(nonce), ciphertext).ok()
}

/// `Aead::encrypt` of `chacha20poly1305::ChaCha20Poly1305` with no associated
/// data. It fails only for a plaintext of 2^32 - 1 or more 64-byte blocks;
/// the result is 16 bytes longer than the plaintext and decrypts to it under
/// the same key and nonce.
#[verifier::external_body]
pub(crate) fn chacha20_poly1305_encrypt(key: &[u8], nonce: &[u8], plaintext: &[u8]) -> (sealed:
    Option<Vec<u8>>)
    requires
        key@.len() == 32,
        nonce@.len() == 12,
        plaintext@.len() + 16 <= usize::MAX,
    ensures
        sealed is Some <==> plaintext@.len() / 64 < 0xFFFF_FFFF,
        sealed is Some ==> sealed.unwrap()@ == chacha20_poly1305_seal(key@, nonce@, plaintext@),
        sealed is Some ==> sealed.unwrap()@.len() == plaintext@.len() + 16,
        sealed is Some ==> chacha20_poly1305_open(key@, nonce@, sealed.unwrap()@) == Some(
            plaintext@,
        ),
{
    let cipher = chacha20poly1305::ChaCha20Poly1305::new(
        chacha20poly1305::Key::from_slice(key),
    );
    cipher.encrypt(chacha20poly1305::Nonce::from_slice(nonce), plaintext).ok()
}

/// `Aead::decrypt` of `chacha20poly1305::ChaCha20Poly1305` with no associated
/// data: the plaintext, or `None` where the ciphertext does not authenticate.
#[verifier::external_body]
pub(crate) fn chacha20_poly1305_decrypt(key: &[u8], nonce: &[u8], ciphertext: &[u8]) -> (opened:
    Option<Vec<u8>>)
    requires
        key@.len() == 32,
        nonce@.len() == 12,
    ensures
        match opened {
            Some(p) => chacha20_poly1305_open(key@, nonce@, ciphertext@) == Some(p@),
            None => chacha20_poly1305_open(key@, nonce@, ciphertext@) is None,
        },
{
    let cipher = chacha20poly1305::ChaCha20Poly1305::new(
        chacha20poly1305::Key::from_slice(key),
    );
    cipher.decrypt(chacha20poly1305::Nonce::from_slice(nonce), ciphertext).ok()
}

/// `try_fill_bytes` of `rand::rngs::OsRng`: `n` bytes from the operating
/// system's random source, or `None` where the source fails. Nothing is
/// known of the bytes but their number.
#[verifier::external_body]
pub(crate) fn random_bytes(n: usize) -> (bytes: Option<Vec<u8>>)
    ensures
        bytes is Some ==> bytes.unwrap()@.len() == n,
{
    let mut buf = vec![0u8; n];
    rand::rngs::OsRng.try_fill_bytes(&mut buf).ok()?;
    Some(buf)
}

/// `Zeroize::zeroize` of a byte vector: overwrites the bytes, and the spare
/// capacity behind them, with zeros and leaves the vector empty.
#[verifier::external_body]
pub(crate) fn wipe(bytes: &mut Vec<u8>)
    ensures
        final(bytes)@ == Seq::<u8>::empty(),
{
    bytes.zeroize();
}

/// `String::push` of the standard library: appends one character to the end
/// of the string and leaves the characters before it unchanged.
pub assume_specification[ String::push ](s: &mut String, c: char)
    ensures
        final(s)@ == old(s)@.push(c),
;

/// `String::from_utf8` of the standard library: the string whose UTF-8
/// encoding is `bytes`, or `None` where `bytes` is no valid UTF-8.
#[verifier::external_body]
pub(crate) fn string_from_utf8(bytes: Vec<u8>) -> (s: Option<String>)
    ensures
        s is Some <==> valid_utf8(bytes@),
        s is Some ==> s.unwrap()@ == decode_utf8(bytes@),
{
    String::from_utf8(bytes).ok()
}

} // verus!
