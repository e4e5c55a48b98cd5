//! Calls into the outside cryptographic crates, each behind a small
//! trusted wrapper whose contract names or states what the call
//! returns. Everything built on top of these is verified against the
//! contracts given here.

use vstd::prelude::*;

use aes::cipher::{BlockDecryptMut, KeyIvInit};
use aes::cipher::generic_array::GenericArray;
use base64::Engine;

verus! {

/// The MD5 digest (16 bytes) of `data`; a function of the bytes alone.
pub uninterp spec fn md5_of(data: Seq<u8>) -> Seq<u8>;

/// The AES-128-CFB decryption of `ct` under `key` and `iv`; a function
/// of the three alone, same length as `ct`.
pub uninterp spec fn aes_cfb_plain(key: Seq<u8>, iv: Seq<u8>, ct: Seq<u8>) -> Seq<u8>;

/// Whether `s` is valid standard base64.
pub uninterp spec fn b64_decode_ok(s: Seq<u8>) -> bool;

/// The bytes that valid standard base64 `s` decodes to.
pub uninterp spec fn b64_decoded(s: Seq<u8>) -> Seq<u8>;

/// Whether the TEA-variant cipher accepts `ct` under `key`: length and
/// padding checks pass after block decryption.
pub uninterp spec fn tea_decrypt_ok(ct: Seq<u8>, key: Seq<u8>) -> bool;

/// The plaintext that the TEA-variant cipher recovers from `ct` under
/// `key`, salt and padding stripped.
pub uninterp spec fn tea_decrypted(ct: Seq<u8>, key: Seq<u8>) -> Seq<u8>;

/// Relies on md5::compute: the digest is 16 bytes and depends on the
/// input bytes alone.
#[verifier::external_body]
pub(crate) fn md5_digest(data: &[u8]) -> (r: [u8; 16])
    ensures
        r@ == md5_of(data@),
{
    md5::compute(data).0
}

/// Relies on cfb_mode::Decryptor over aes::Aes128: block-by-block
/// cipher-feedback decryption, a function of key, iv and ciphertext
/// alone, preserving the length of whole-block input.
#[verifier::external_body]
pub(crate) fn aes128_cfb_decrypt(key: &[u8], iv: &[u8], data: &[u8]) -> (r: Vec<u8>)
    requires
        key@.len() == 16,
        iv@.len() == 16,
        data@.len() % 16 == 0,
    ensures
        r@ == aes_cfb_plain(key@, iv@, data@),
        r@.len() == data@.len(),
{
    let mut cipher = cfb_mode::Decryptor::<aes::Aes128>::new(
        GenericArray::from_slice(key),
        GenericArray::from_slice(iv),
    );
    let mut blocks: Vec<GenericArray<u8, _>> =
        data.chunks_exact(16).map(GenericArray::clone_from_slice).collect();
    cipher.decrypt_blocks_mut(&mut blocks);
    blocks.into_iter().flatten().collect()
}

/// Relies on base64's STANDARD engine decode: succeeds exactly on valid
/// standard base64, and the decoded bytes depend on the input alone.
#[verifier::external_body]
pub(crate) fn base64_decode(s: &[u8]) -> (r: Option<Vec<u8>>)
    ensures
        r is Some <==> b64_decode_ok(s@),
        r matches Some(v) ==> v@ == b64_decoded(s@),
{
    base64::engine::general_purpose::STANDARD.decode(s).ok()
}

/// Relies on tc_tea::decrypt: accepts only whole-block input of at
/// least two blocks under a 16-byte key, and the recovered plaintext
/// depends on ciphertext and key alone. Input of exactly 16 bytes is
/// kept out: on such input a decrypted padding count of 7 puts the
/// crate's trailing slice out of order and the call panics; from 24
/// bytes up the slice bounds cannot cross, and shorter input fails
/// its length check before any slice.
#[verifier::external_body]
pub(crate) fn tea_decrypt(data: &[u8], key: &[u8]) -> (r: Option<Vec<u8>>)
    requires
        data@.len() != 16,
    ensures
        r is Some <==> tea_decrypt_ok(data@, key@),
        r matches Some(v) ==> v@ == tea_decrypted(data@, key@),
        r is Some ==> data@.len() >= 24 && data@.len() % 8 == 0 && key@.len() == 16,
{
    tc_tea::decrypt(data, key).ok()
}

} // verus!
