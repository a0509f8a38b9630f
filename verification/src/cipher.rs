//! The symmetric cipher wrapper: text is sealed with ChaCha20-Poly1305
//! under a key that is the SHA-256 digest of the PIN, with a fresh random
//! nonce for every encryption.
//!
//! A known weakness: the key is a plain digest of the PIN, with neither a
//! salt nor a memory-hard function between a stolen store and a search
//! through all PINs. The key that verification derives with Argon2 from
//! PIN and salt is kept by the store, but it does not key this cipher.
//! Stores in the field hold ciphertexts under the digest, so the scheme
//! can only change together with a migration of those.

use vstd::prelude::*;
use vstd::utf8::*;

use crate::crypto::{
    aead_decrypt, aead_encrypt, aead_open, aead_seal, random_bytes, sealable, sha256,
    sha256_digest, string_from_utf8, NONCE_LEN, TAG_LEN,
};
use crate::error::{Failure, StoreError};

verus! {

/// The cipher key that belongs to `pin`.
pub open spec fn pin_key(pin: Seq<char>) -> Seq<u8> {
    sha256(encode_utf8(pin))
}

/// The text that a sealed field yields under `pin`, or `None` when the nonce
/// has the wrong length, the tag does not authenticate under the PIN's key,
/// or the plaintext is not UTF-8.
pub open spec fn unseal(ciphertext: Seq<u8>, nonce: Seq<u8>, pin: Seq<char>) -> Option<Seq<char>> {
    if nonce.len() != NONCE_LEN {
        None
    } else {
        match aead_open(pin_key(pin), nonce, ciphertext) {
            Some(bytes) => if valid_utf8(bytes) {
                Some(decode_utf8(bytes))
            } else {
                None
            },
            None => None,
        }
    }
}

/// Whether `ciphertext` and `nonce` are a sealing of `plaintext` under `pin`:
/// the nonce has the cipher's length, the ciphertext is what the cipher
/// produces from the text's UTF-8 bytes, and the cipher opens it again to
/// those bytes.
pub open spec fn seals(ciphertext: Seq<u8>, nonce: Seq<u8>, plaintext: Seq<char>, pin: Seq<char>) -> bool {
    &&& nonce.len() == NONCE_LEN
    &&& ciphertext == aead_seal(pin_key(pin), nonce, encode_utf8(plaintext))
    &&& aead_open(pin_key(pin), nonce, ciphertext) == Some(encode_utf8(plaintext))
}

/// Encrypts `plaintext` under `pin` with the nonce given. It succeeds
/// exactly when the nonce is twelve bytes long and the plaintext is not
/// too long for the cipher. The ciphertext is then a function of PIN, nonce
/// and text alone, sixteen bytes longer than the text's UTF-8 encoding, and
/// decrypts under the same PIN and nonce to the text that went in.
///
/// A nonce must never serve twice under one PIN: callers other than
/// [`encrypt_string`] have to see to that themselves.
pub fn seal_with_nonce(plaintext: &str, pin: &str, nonce: &[u8]) -> (res: Result<
    Vec<u8>,
    StoreError,
>)
    ensures
        res is Ok <==> nonce@.len() == NONCE_LEN && sealable(encode_utf8(plaintext@)),
        res matches Ok(ciphertext) ==> seals(ciphertext@, nonce@, plaintext@, pin@),
        res matches Ok(ciphertext) ==> ciphertext@.len() == encode_utf8(plaintext@).len()
            + TAG_LEN,
        res matches Ok(ciphertext) ==> unseal(ciphertext@, nonce@, pin@) == Some(plaintext@),
        res matches Err(e) ==> e@ == Failure::StorageError("Encryption failed"@),
{
    if nonce.len() != NONCE_LEN || plaintext.as_bytes().len() > isize::MAX as usize - TAG_LEN {
        return Err(StoreError::StorageError("Encryption failed".to_owned()));
    }
    let key = sha256_digest(pin.as_bytes());
    match aead_encrypt(key.as_slice(), nonce, plaintext.as_bytes()) {
        Ok(ciphertext) => {
            proof {
                lemma_round_trip(ciphertext@, nonce@, plaintext@, pin@);
            }
            Ok(ciphertext)
        },
        Err(_) => Err(StoreError::StorageError("Encryption failed".to_owned())),
    }
}

/// Encrypts `plaintext` under `pin` with a nonce drawn for this call, and
/// returns ciphertext and nonce: the nonce is the twelve bytes drawn, and
/// the ciphertext is what [`seal_with_nonce`] makes of text, PIN and that
/// nonce. It fails only on a plaintext too long for the cipher, and
/// whatever it returns decrypts under the same PIN to the text that went in.
pub fn encrypt_string(plaintext: &str, pin: &str) -> (res: Result<(Vec<u8>, Vec<u8>), StoreError>)
    ensures
        res is Ok <==> sealable(encode_utf8(plaintext@)),
        res matches Ok((ciphertext, nonce)) ==> seals(ciphertext@, nonce@, plaintext@, pin@),
        res matches Ok((ciphertext, nonce)) ==> ciphertext@.len() == encode_utf8(plaintext@).len()
            + TAG_LEN,
        res matches Ok((ciphertext, nonce)) ==> unseal(ciphertext@, nonce@, pin@) == Some(
            plaintext@,
        ),
        res matches Err(e) ==> e@ == Failure::StorageError("Encryption failed"@),
{
    let nonce = random_bytes(NONCE_LEN);
    match seal_with_nonce(plaintext, pin, nonce.as_slice()) {
        Ok(ciphertext) => Ok((ciphertext, nonce)),
        Err(e) => Err(e),
    }
}

/// Decrypts a sealed field under `pin`. It fails with `DecryptionError` when
/// the nonce is not twelve bytes long, when the tag does not authenticate
/// (wrong PIN, altered ciphertext, another nonce), or when the plaintext is
/// not UTF-8.
pub fn decrypt_string(ciphertext: &[u8], nonce_bytes: &[u8], pin: &str) -> (res: Result<
    String,
    StoreError,
>)
    ensures
        match res {
            Ok(text) => unseal(ciphertext@, nonce_bytes@, pin@) == Some(text@),
            Err(e) => unseal(ciphertext@, nonce_bytes@, pin@) is None && e@
                == Failure::DecryptionError,
        },
{
    if nonce_bytes.len() != NONCE_LEN {
        return Err(StoreError::DecryptionError);
    }
    let key = sha256_digest(pin.as_bytes());
    match aead_decrypt(key.as_slice(), nonce_bytes, ciphertext) {
        Ok(bytes) => match string_from_utf8(bytes) {
            Ok(text) => Ok(text),
            Err(_) => Err(StoreError::DecryptionError),
        },
        Err(_) => Err(StoreError::DecryptionError),
    }
}

/// Round trip: any sealing of `plaintext` under `pin` decrypts under `pin`
/// to `plaintext`.
pub proof fn lemma_round_trip(
    ciphertext: Seq<u8>,
    nonce: Seq<u8>,
    plaintext: Seq<char>,
    pin: Seq<char>,
)
    requires
        seals(ciphertext, nonce, plaintext, pin),
    ensures
        unseal(ciphertext, nonce, pin) == Some(plaintext),
{
    encode_utf8_valid_utf8(plaintext);
    encode_utf8_decode_utf8(plaintext);
}

/// Wrong-key rejection: a sealed field presented with another PIN yields no
/// text, provided the cipher's tag check does not pass under that PIN's key.
pub proof fn lemma_wrong_pin_rejected(
    ciphertext: Seq<u8>,
    nonce: Seq<u8>,
    plaintext: Seq<char>,
    pin: Seq<char>,
    other_pin: Seq<char>,
)
    requires
        seals(ciphertext, nonce, plaintext, pin),
        other_pin != pin,
        aead_open(pin_key(other_pin), nonce, ciphertext) is None,
    ensures
        unseal(ciphertext, nonce, other_pin) is None,
{
}

} // verus!
