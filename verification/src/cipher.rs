//! The authenticated cipher, AES-256-GCM of crate `ring`.
//!
//! Sealing turns a plaintext into a ciphertext with a 16-byte tag behind it;
//! opening checks the tag and gives the plaintext back. Both are bound to a
//! key, a nonce and associated data that is authenticated but not encrypted.
//! What is stated of the two here is believed, not proved.
use crate::keygen::{CipherKey, NonceBuffer};
use vstd::prelude::*;

verus! {

/// What a call of the cipher hands back: bytes, or the crate's error.
pub type CipherResult = Result<Vec<u8>, ring::error::Unspecified>;

/// Length of the authentication tag, in bytes.
pub const TAG_LEN: usize = 16;

/// Plaintext and associated data up to this length are always sealed.
pub const SEAL_LIMIT: usize = 0xFFFF_FFFF;

/// What sealing `plaintext` gives: the ciphertext with the tag behind it, or
/// nothing where the cipher turns the input down.
pub uninterp spec fn aes256_gcm_seal(
    key: Seq<u8>,
    nonce: Seq<u8>,
    aad: Seq<u8>,
    plaintext: Seq<u8>,
) -> Option<Seq<u8>>;

/// What opening `sealed` gives: the plaintext, or nothing where the tag does
/// not match.
pub uninterp spec fn aes256_gcm_open(
    key: Seq<u8>,
    nonce: Seq<u8>,
    aad: Seq<u8>,
    sealed: Seq<u8>,
) -> Option<Seq<u8>>;

/// True where `r` is the plaintext `plain`.
pub open spec fn opened_as(r: CipherResult, plain: Seq<u8>) -> bool {
    r matches Ok(out) && out@ == plain
}

/// `LessSafeKey::seal_in_place_append_tag` of `ring::aead`, with a key made
/// by `UnboundKey::new(&AES_256_GCM, ..)` and a nonce made by
/// `Nonce::assume_unique_for_key`. Believed: the result depends on the four
/// arguments alone; it is 16 bytes longer than the plaintext; and the call
/// succeeds where plaintext and associated data are each at most 2^32 - 1
/// bytes long.
#[verifier::external_body]
pub(crate) fn seal(key: &CipherKey, nonce: &NonceBuffer, aad: &[u8], plaintext: &[u8]) -> (r:
    CipherResult)
    ensures
        match r {
            Ok(sealed) => aes256_gcm_seal(key@, nonce@, aad@, plaintext@) == Some(sealed@)
                && sealed@.len() == plaintext@.len() + TAG_LEN,
            Err(_) => aes256_gcm_seal(key@, nonce@, aad@, plaintext@) is None && (plaintext@.len()
                > SEAL_LIMIT || aad@.len() > SEAL_LIMIT),
        },
{
    let unbound = ring::aead::UnboundKey::new(&ring::aead::AES_256_GCM, &key.bytes)?;
    let key = ring::aead::LessSafeKey::new(unbound);
    let mut buffer = plaintext.to_vec();
    let nonce = ring::aead::Nonce::assume_unique_for_key(*nonce);
    key.seal_in_place_append_tag(nonce, ring::aead::Aad::from(aad), &mut buffer)?;
    Ok(buffer)
}

/// `LessSafeKey::open_in_place` of `ring::aead`, with key and nonce made as
/// for sealing. Believed: the result depends on the four arguments alone;
/// what was sealed under a key, a nonce and associated data opens under
/// the same three to the plaintext that was sealed; and an input too short
/// to hold the 16-byte tag is turned down.
#[verifier::external_body]
pub(crate) fn open(key: &CipherKey, nonce: &NonceBuffer, aad: &[u8], sealed: &[u8]) -> (r:
    CipherResult)
    ensures
        match r {
            Ok(plain) => aes256_gcm_open(key@, nonce@, aad@, sealed@) == Some(plain@),
            Err(_) => aes256_gcm_open(key@, nonce@, aad@, sealed@) is None,
        },
        forall|plain: Seq<u8>| #[trigger]
            aes256_gcm_seal(key@, nonce@, aad@, plain) == Some(sealed@) ==> opened_as(r, plain),
        sealed@.len() < TAG_LEN ==> r is Err,
{
    let unbound = ring::aead::UnboundKey::new(&ring::aead::AES_256_GCM, &key.bytes)?;
    let key = ring::aead::LessSafeKey::new(unbound);
    let mut buffer = sealed.to_vec();
    let nonce = ring::aead::Nonce::assume_unique_for_key(*nonce);
    let length = key.open_in_place(nonce, ring::aead::Aad::from(aad), &mut buffer)?.len();
    buffer.truncate(length);
    Ok(buffer)
}

} // verus!
