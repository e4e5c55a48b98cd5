//! Per-track key unwrapping.
//!
//! A key blob is base64 text. Decoded, it splits into an 8-byte header
//! and a TEA-encrypted remainder; the unwrap key interleaves a fixed
//! 8-byte constant with the header, and the raw track key is the
//! header followed by the decrypted remainder.

use vstd::prelude::*;

use crate::errors::DecryptError;
use crate::params::TEA_KEY_MAGIC;
use crate::primitives::{
    b64_decode_ok,
    b64_decoded,
    tea_decrypt_ok,
    tea_decrypted,
    base64_decode,
    tea_decrypt,
};

verus! {

/// The 16-byte unwrap key built from a blob's 8-byte header `h`:
/// constant bytes at even positions, header bytes at odd ones.
pub open spec fn unwrap_key_of(h: Seq<u8>) -> Seq<u8> {
    Seq::new(16, |i: int| if i % 2 == 0 { TEA_KEY_MAGIC@[i / 2] } else { h[(i - 1) / 2] })
}

/// Whether a blob unwraps: valid base64, at least the 8-byte header,
/// and a remainder the TEA step accepts under the interleaved key. A
/// remainder of exactly 16 bytes is rejected up front: the TEA crate
/// can step outside its buffer on such input, and a remainder that
/// small would carry a raw key far shorter than the store's format
/// uses.
pub open spec fn blob_decode_ok(blob: Seq<u8>) -> bool {
    &&& b64_decode_ok(blob)
    &&& b64_decoded(blob).len() >= 8
    &&& b64_decoded(blob).skip(8).len() != 16
    &&& tea_decrypt_ok(b64_decoded(blob).skip(8), unwrap_key_of(b64_decoded(blob).take(8)))
}

/// The raw track key recovered from a blob that unwraps: its decoded
/// header followed by the TEA-decrypted remainder.
pub open spec fn raw_key_of(blob: Seq<u8>) -> Seq<u8> {
    b64_decoded(blob).take(8) + tea_decrypted(
        b64_decoded(blob).skip(8),
        unwrap_key_of(b64_decoded(blob).take(8)),
    )
}

/// Unwraps one per-track key blob. Fails with `KeyUnwrapError` exactly
/// when the base64 decoding fails, the decoded blob is shorter than
/// its header, the remainder has the one length the TEA step cannot
/// be trusted with, or the TEA step rejects the remainder.
pub fn unwrap_track_key(blob: &[u8]) -> (r: Result<Vec<u8>, DecryptError>)
    ensures
        match r {
            Ok(v) => blob_decode_ok(blob@) && v@ == raw_key_of(blob@),
            Err(e) => e == DecryptError::KeyUnwrapError && !blob_decode_ok(blob@),
        },
{
    let decoded = match base64_decode(blob) {
        None => {
            return Err(DecryptError::KeyUnwrapError);
        },
        Some(d) => d,
    };
    if decoded.len() < 8 {
        return Err(DecryptError::KeyUnwrapError);
    }
    let header = vstd::slice::slice_subrange(decoded.as_slice(), 0, 8);
    let remainder = vstd::slice::slice_subrange(decoded.as_slice(), 8, decoded.len());
    proof {
        assert(header@ =~= b64_decoded(blob@).take(8));
        assert(remainder@ =~= b64_decoded(blob@).skip(8));
    }
    if remainder.len() == 16 {
        return Err(DecryptError::KeyUnwrapError);
    }
    let mut ukey: Vec<u8> = Vec::new();
    let mut i: usize = 0;
    while i < 8
        invariant
            i <= 8,
            header@.len() == 8,
            ukey@.len() == 2 * i,
            forall|k: int| 0 <= k < 2 * i ==> ukey@[k] == unwrap_key_of(header@)[k],
        decreases 8 - i,
    {
        ukey.push(TEA_KEY_MAGIC[i]);
        ukey.push(header[i]);
        i = i + 1;
    }
    proof {
        assert(ukey@ =~= unwrap_key_of(header@));
    }
    let plain = match tea_decrypt(remainder, ukey.as_slice()) {
        None => {
            return Err(DecryptError::KeyUnwrapError);
        },
        Some(p) => p,
    };
    let mut out = vstd::slice::slice_to_vec(header);
    let mut rest = plain;
    out.append(&mut rest);
    proof {
        assert(out@ =~= raw_key_of(blob@));
    }
    Ok(out)
}

} // verus!
