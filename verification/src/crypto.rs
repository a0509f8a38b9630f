//! The cryptographic primitives the library relies on, each behind a small
//! function whose contract is taken on trust from the crate that implements
//! it. Nothing in this file is proved: it states what the rest of the
//! library may assume about SHA-256, ChaCha20-Poly1305, Argon2 and the
//! random number generator.

use vstd::prelude::*;
use vstd::utf8::*;

use argon2::password_hash::rand_core::OsRng;
use argon2::password_hash::{PasswordHash, PasswordHasher, PasswordVerifier, SaltString};
use argon2::Argon2;
use chacha20poly1305::aead::Aead;
use chacha20poly1305::{ChaCha20Poly1305, Key, KeyInit, Nonce};
use rand::{thread_rng, Rng};
use sha2::{Digest, Sha256};

verus! {

/// `chacha20poly1305::Error`: the cipher's only error value, carrying no detail.
#[verifier::external_type_specification]
#[verifier::external_body]
pub struct ExAeadError(chacha20poly1305::Error);

/// `argon2::password_hash::Error`: why a PHC string, a salt or a hashing run was refused.
#[verifier::external_type_specification]
#[verifier::external_body]
pub struct ExPasswordHashError(argon2::password_hash::Error);

/// `std::string::FromUtf8Error`: returned when bytes are not UTF-8.
#[verifier::external_type_specification]
#[verifier::external_body]
pub struct ExFromUtf8Error(std::string::FromUtf8Error);

/// Length in bytes of a ChaCha20-Poly1305 key.
pub const KEY_LEN: usize = 32;

/// Length in bytes of a ChaCha20-Poly1305 nonce.
pub const NONCE_LEN: usize = 12;

/// The SHA-256 digest of `data`.
pub uninterp spec fn sha256(data: Seq<u8>) -> Seq<u8>;

/// The ChaCha20-Poly1305 ciphertext (with its tag appended) of `plaintext`
/// under `key` and `nonce`, with no associated data.
pub uninterp spec fn aead_seal(key: Seq<u8>, nonce: Seq<u8>, plaintext: Seq<u8>) -> Seq<u8>;

/// What ChaCha20-Poly1305 decryption of `ciphertext` under `key` and `nonce`
/// yields: the plaintext, or `None` when the tag does not authenticate.
pub uninterp spec fn aead_open(key: Seq<u8>, nonce: Seq<u8>, ciphertext: Seq<u8>) -> Option<
    Seq<u8>,
>;

/// What Argon2 with default parameters computes from `password` and the
/// B64 `salt`: the PHC string and the raw hash output, or `None` when the
/// salt or the password is refused.
pub uninterp spec fn argon2_hash_of(password: Seq<char>, salt: Seq<char>) -> Option<
    (Seq<char>, Option<Seq<u8>>),
>;

/// Whether the PHC string `hash` accepts `password`; `None` when `hash`
/// does not parse as a PHC string.
pub uninterp spec fn argon2_verify(hash: Seq<char>, password: Seq<char>) -> Option<bool>;

/// Length in characters of a salt as it is generated: sixteen bytes in B64.
pub const SALT_LEN: usize = 22;

/// Whether `hash` is what hashing `password` under `salt` yields.
pub open spec fn hashes_to(password: Seq<char>, salt: Seq<char>, hash: Seq<char>) -> bool {
    argon2_hash_of(password, salt) matches Some(out) && out.0 == hash
}

/// Whether `hash` is what hashing `password` yields under some salt of
/// the length that is generated.
pub open spec fn fresh_hash(password: Seq<char>, hash: Seq<char>) -> bool {
    exists|salt: Seq<char>| salt.len() == SALT_LEN && #[trigger] hashes_to(password, salt, hash)
}

/// Whether hashing `password` is refused under `salt`.
pub open spec fn refuses(password: Seq<char>, salt: Seq<char>) -> bool {
    argon2_hash_of(password, salt) is None
}

/// Whether hashing `password` is refused under some salt of the length
/// that is generated.
pub open spec fn hash_refused(password: Seq<char>) -> bool {
    exists|salt: Seq<char>| salt.len() == SALT_LEN && #[trigger] refuses(password, salt)
}

/// Length in bytes of the tag the cipher appends to a ciphertext.
pub const TAG_LEN: usize = 16;

/// Whether a plaintext is within what the cipher's block counter covers:
/// the counter is 32 bits wide and a block holds 64 bytes.
pub open spec fn within_counter(plaintext: Seq<u8>) -> bool {
    plaintext.len() / 64 < u32::MAX
}

/// Whether a plaintext, with the tag appended, fits a buffer.
pub open spec fn with_tag_fits(plaintext: Seq<u8>) -> bool {
    plaintext.len() + TAG_LEN <= isize::MAX
}

/// Whether the cipher can seal a plaintext: it is within the block
/// counter's reach and leaves room for the tag.
pub open spec fn sealable(plaintext: Seq<u8>) -> bool {
    within_counter(plaintext) && with_tag_fits(plaintext)
}

/// Calls `sha2::Sha256::digest`. Trusted: the result is the SHA-256 digest
/// of `data`, which is always 32 bytes long.
#[verifier::external_body]
pub(crate) fn sha256_digest(data: &[u8]) -> (digest: Vec<u8>)
    ensures
        digest@ == sha256(data@),
        digest@.len() == KEY_LEN,
{
    Sha256::digest(data).to_vec()
}

/// Calls `ChaCha20Poly1305::encrypt` with no associated data. Trusted: it
/// fails exactly when the plaintext is longer than the block counter allows,
/// and what it returns is the plaintext's length plus the tag long and
/// decrypts under the same key and nonce to the plaintext that went in. Key and nonce must have the cipher's lengths,
/// since the crate panics on any other, and the plaintext must leave room
/// for the tag, since the crate allocates the ciphertext before it looks
/// at the length.
#[verifier::external_body]
pub(crate) fn aead_encrypt(key: &[u8], nonce: &[u8], plaintext: &[u8]) -> (res: Result<
    Vec<u8>,
    chacha20poly1305::Error,
>)
    requires
        key@.len() == KEY_LEN,
        nonce@.len() == NONCE_LEN,
        with_tag_fits(plaintext@),
    ensures
        res is Ok <==> within_counter(plaintext@),
        res matches Ok(ct) ==> ct@ == aead_seal(key@, nonce@, plaintext@),
        res matches Ok(ct) ==> ct@.len() == plaintext@.len() + TAG_LEN,
        res matches Ok(ct) ==> aead_open(key@, nonce@, ct@) == Some(plaintext@),
{
    let cipher = ChaCha20Poly1305::new(Key::from_slice(key));
    cipher.encrypt(Nonce::from_slice(nonce), plaintext)
}

/// Calls `ChaCha20Poly1305::decrypt` with no associated data. Trusted: the
/// outcome depends on key, nonce and ciphertext alone. Key and nonce must
/// have the cipher's lengths, since the crate panics on any other.
#[verifier::external_body]
pub(crate) fn aead_decrypt(key: &[u8], nonce: &[u8], ciphertext: &[u8]) -> (res: Result<
    Vec<u8>,
    chacha20poly1305::Error,
>)
    requires
        key@.len() == KEY_LEN,
        nonce@.len() == NONCE_LEN,
    ensures
        match res {
            Ok(pt) => aead_open(key@, nonce@, ciphertext@) == Some(pt@),
            Err(_) => aead_open(key@, nonce@, ciphertext@) is None,
        },
{
    let cipher = ChaCha20Poly1305::new(Key::from_slice(key));
    cipher.decrypt(Nonce::from_slice(nonce), ciphertext)
}

/// Calls `rand::Rng::fill` on the thread-local generator. Trusted: the
/// result has the length asked for; nothing is known of its contents. The
/// generator panics if the operating system gives it no seed.
#[verifier::external_body]
pub(crate) fn random_bytes(len: usize) -> (bytes: Vec<u8>)
    requires
        len <= isize::MAX,
    ensures
        bytes@.len() == len,
{
    let mut bytes = vec![0u8; len];
    thread_rng().fill(&mut bytes[..]);
    bytes
}

/// Calls `String::from_utf8`. Trusted: it succeeds exactly on valid UTF-8
/// and then yields the text those bytes encode.
#[verifier::external_body]
pub(crate) fn string_from_utf8(bytes: Vec<u8>) -> (res: Result<String, std::string::FromUtf8Error>)
    ensures
        res is Ok <==> valid_utf8(bytes@),
        res matches Ok(s) ==> s@ == decode_utf8(bytes@),
{
    String::from_utf8(bytes)
}

/// Calls `SaltString::generate` on the operating system's generator.
/// Trusted: sixteen random bytes in B64 are twenty-two characters. The
/// call panics if the operating system's generator fails.
#[verifier::external_body]
pub(crate) fn generate_salt() -> (salt: String)
    ensures
        salt@.len() == SALT_LEN,
{
    SaltString::generate(&mut OsRng).to_string()
}

/// Calls `Argon2::hash_password` with default parameters under the salt
/// given in B64. Trusted: the outcome depends on password and salt alone,
/// and a PHC string that comes out accepts the password that went in.
#[verifier::external_body]
pub(crate) fn argon2_hash(password: &str, salt: &str) -> (res: Result<
    (String, Option<Vec<u8>>),
    argon2::password_hash::Error,
>)
    ensures
        match res {
            Ok((phc, raw)) => argon2_hash_of(password@, salt@) == Some(
                (
                    phc@,
                    match raw {
                        Some(r) => Some(r@),
                        None => None,
                    },
                ),
            ) && argon2_verify(phc@, password@) == Some(true),
            Err(_) => argon2_hash_of(password@, salt@) is None,
        },
{
    let salt = SaltString::from_b64(salt)?;
    let hash = Argon2::default().hash_password(password.as_bytes(), &salt)?;
    Ok((hash.to_string(), hash.hash.map(|out| out.as_bytes().to_vec())))
}

/// Calls `PasswordHash::new` and `Argon2::verify_password`. Trusted: the
/// call fails exactly when `hash` is no PHC string, and otherwise tells
/// whether the hash accepts the password; both depend on the arguments
/// alone. Verification uses as much memory as the hash's parameters ask for.
#[verifier::external_body]
pub(crate) fn argon2_check(hash: &str, password: &str) -> (res: Result<
    bool,
    argon2::password_hash::Error,
>)
    ensures
        match res {
            Ok(accepted) => argon2_verify(hash@, password@) == Some(accepted),
            Err(_) => argon2_verify(hash@, password@) is None,
        },
{
    let parsed = PasswordHash::new(hash)?;
    Ok(Argon2::default().verify_password(password.as_bytes(), &parsed).is_ok())
}

} // verus!
