//! Index key derivation and index container decryption.
//!
//! A candidate index key is the MD5 digest of
//! `primary || secondary || KEY_SUFFIX`, reformatted as the uppercase
//! hex of three little-endian fields (`u32`, `u16`, `u16`) read from
//! its first eight bytes. A candidate is valid when decrypting the
//! container's first cipher block under it shows `INDEX_MAGIC` at
//! bytes 4 to 8. The container itself is a little-endian `u32` size
//! followed by ciphertext padded to a 16-byte boundary.

use vstd::prelude::*;

use crate::errors::DecryptError;
use crate::params::{KEY_SUFFIX, INDEX_MAGIC};
use crate::primitives::{md5_of, aes_cfb_plain, md5_digest, aes128_cfb_decrypt};

verus! {

/// Uppercase hex digit for `d` in `0..16`.
pub open spec fn hex_digit(d: int) -> u8 {
    if d < 10 {
        (0x30 + d) as u8
    } else {
        (0x37 + d) as u8
    }
}

/// The low `n` hex digits of `v`, most significant first.
pub open spec fn hex_digits(v: int, n: int) -> Seq<u8>
    decreases n,
{
    if n <= 0 {
        Seq::empty()
    } else {
        hex_digits(v / 16, n - 1) + seq![hex_digit(v % 16)]
    }
}

/// The hex form of a `u16` printed with a minimum width of two digits:
/// exactly as many digits as the value needs, but never fewer than two.
pub open spec fn hex_u16_min2(v: int) -> Seq<u8> {
    if v < 0x100 {
        hex_digits(v, 2)
    } else if v < 0x1000 {
        hex_digits(v, 3)
    } else {
        hex_digits(v, 4)
    }
}

/// Little-endian `u32` read from a 4-byte sequence.
pub open spec fn u32le(s: Seq<u8>) -> int {
    s[0] + 0x100 * s[1] + 0x10000 * s[2] + 0x1000000 * s[3]
}

/// Little-endian `u16` read from a 2-byte sequence.
pub open spec fn u16le(s: Seq<u8>) -> int {
    s[0] + 0x100 * s[1]
}

/// The index key formatted from an MD5 digest: `{u32-LE}{u16-LE}{u16-LE}`
/// of the digest's first eight bytes, in uppercase hex.
pub open spec fn derived_hex(digest: Seq<u8>) -> Seq<u8> {
    hex_digits(u32le(digest.subrange(0, 4)), 8) + hex_u16_min2(u16le(digest.subrange(4, 6)))
        + hex_u16_min2(u16le(digest.subrange(6, 8)))
}

/// The index key derived for one candidate identity pair.
pub open spec fn candidate_key(cand: Seq<u8>, secondary: Seq<u8>) -> Seq<u8> {
    derived_hex(md5_of(cand + secondary + KEY_SUFFIX@))
}

/// Whether a candidate's key is 16 bytes and passes the magic-marker
/// check on the container's first cipher block.
pub open spec fn candidate_ok(cand: Seq<u8>, secondary: Seq<u8>, iv: Seq<u8>, block: Seq<u8>) -> bool {
    &&& candidate_key(cand, secondary).len() == 16
    &&& aes_cfb_plain(candidate_key(cand, secondary), iv, block).subrange(4, 8) == INDEX_MAGIC@
}

/// Index of the first valid candidate, scanning strictly in order.
pub open spec fn first_valid_candidate(
    cands: Seq<Seq<u8>>,
    secondary: Seq<u8>,
    iv: Seq<u8>,
    block: Seq<u8>,
) -> Option<int>
    decreases cands.len(),
{
    if cands.len() == 0 {
        None
    } else if candidate_ok(cands[0], secondary, iv, block) {
        Some(0)
    } else {
        match first_valid_candidate(cands.drop_first(), secondary, iv, block) {
            None => None,
            Some(i) => Some(i + 1),
        }
    }
}

/// Size the container's ciphertext is padded to: the next multiple of
/// sixteen at or above `n`.
pub open spec fn pad16(n: int) -> int {
    if n % 16 == 0 {
        n
    } else {
        n + 16 - n % 16
    }
}

/// The container's stored plaintext size (its leading four bytes).
pub open spec fn stored_size(c: Seq<u8>) -> int {
    u32le(c.subrange(0, 4))
}

/// A well-formed container: room for the size field, a stored size that
/// covers the field itself, and ciphertext of exactly the padded size.
pub open spec fn container_wf(c: Seq<u8>) -> bool {
    &&& c.len() >= 4
    &&& stored_size(c) >= 4
    &&& c.len() == 4 + pad16(stored_size(c))
}

/// The record stream of a well-formed container under `key` and `iv`:
/// the decrypted ciphertext, trimmed of the leading four bytes already
/// consumed as the size field and of the padding.
pub open spec fn index_stream(c: Seq<u8>, iv: Seq<u8>, key: Seq<u8>) -> Seq<u8> {
    aes_cfb_plain(key, iv, c.skip(4)).subrange(4, stored_size(c))
}

/// Law: key derivation is deterministic. Any two keys derived from the
/// same identity pair are byte-identical; the key is a function of
/// `(primary, secondary)` and the fixed suffix alone.
pub proof fn lemma_key_derivation_deterministic(
    primary: Seq<u8>,
    secondary: Seq<u8>,
    k1: Seq<u8>,
    k2: Seq<u8>,
)
    requires
        k1 == candidate_key(primary, secondary),
        k2 == candidate_key(primary, secondary),
    ensures
        k1 == k2,
{
}

/// Law: candidate order is binding. When the scan answers position
/// `i`, that candidate is valid and every candidate before it was
/// attempted and failed the magic check; none is skipped.
pub proof fn lemma_first_match_is_first(
    cands: Seq<Seq<u8>>,
    secondary: Seq<u8>,
    iv: Seq<u8>,
    block: Seq<u8>,
    i: int,
)
    requires
        first_valid_candidate(cands, secondary, iv, block) == Some(i),
    ensures
        0 <= i < cands.len(),
        candidate_ok(cands[i], secondary, iv, block),
        forall|j: int| 0 <= j < i ==> !candidate_ok(cands[j], secondary, iv, block),
    decreases cands.len(),
{
    if cands.len() > 0 && !candidate_ok(cands[0], secondary, iv, block) {
        lemma_first_match_is_first(cands.drop_first(), secondary, iv, block, i - 1);
        assert forall|j: int| 0 <= j < i implies !candidate_ok(cands[j], secondary, iv, block) by {
            if j > 0 {
                assert(cands.drop_first()[j - 1] == cands[j]);
            }
        }
    }
}

/// Pushes the low `n` hex digits of `v`, most significant first.
fn push_hex_digits(out: &mut Vec<u8>, v: u32, n: usize)
    ensures
        final(out)@ == old(out)@ + hex_digits(v as int, n as int),
    decreases n,
{
    if n == 0 {
        proof {
            assert(out@ =~= old(out)@ + hex_digits(v as int, 0));
        }
    } else {
        push_hex_digits(out, v / 16, n - 1);
        let d = v % 16;
        if d < 10 {
            out.push(0x30 + d as u8);
        } else {
            out.push(0x37 + d as u8);
        }
        proof {
            assert(out@ =~= old(out)@ + hex_digits(v as int, n as int));
        }
    }
}

/// Derives the index key for one `(primary, secondary)` identity pair:
/// the MD5 digest of `primary || secondary || KEY_SUFFIX` reformatted
/// as `{u32-LE}{u16-LE}{u16-LE}` in uppercase hex. The result is 16
/// bytes unless the two `u16` fields print short.
pub fn derive_index_key(primary: &[u8], secondary: &[u8]) -> (r: Vec<u8>)
    ensures
        r@ == candidate_key(primary@, secondary@),
{
    let mut cat: Vec<u8> = Vec::new();
    cat.extend_from_slice(primary);
    cat.extend_from_slice(secondary);
    cat.extend_from_slice(&KEY_SUFFIX);
    proof {
        assert(cat@ =~= primary@ + secondary@ + KEY_SUFFIX@);
    }
    let digest = md5_digest(cat.as_slice());
    let ghost dg = md5_of(primary@ + secondary@ + KEY_SUFFIX@);
    let w32: u32 = digest[0] as u32 + 0x100 * digest[1] as u32 + 0x10000 * digest[2] as u32
        + 0x1000000 * digest[3] as u32;
    let wa: u32 = digest[4] as u32 + 0x100 * digest[5] as u32;
    let wb: u32 = digest[6] as u32 + 0x100 * digest[7] as u32;
    proof {
        assert(digest@.subrange(0, 4) =~= seq![digest@[0], digest@[1], digest@[2], digest@[3]]);
        assert(digest@.subrange(4, 6) =~= seq![digest@[4], digest@[5]]);
        assert(digest@.subrange(6, 8) =~= seq![digest@[6], digest@[7]]);
    }
    let mut r: Vec<u8> = Vec::new();
    push_hex_digits(&mut r, w32, 8);
    if wa < 0x100 {
        push_hex_digits(&mut r, wa, 2);
    } else if wa < 0x1000 {
        push_hex_digits(&mut r, wa, 3);
    } else {
        push_hex_digits(&mut r, wa, 4);
    }
    if wb < 0x100 {
        push_hex_digits(&mut r, wb, 2);
    } else if wb < 0x1000 {
        push_hex_digits(&mut r, wb, 3);
    } else {
        push_hex_digits(&mut r, wb, 4);
    }
    proof {
        assert(r@ =~= derived_hex(dg));
    }
    r
}

/// Scans the identity candidates in order and returns the position and
/// key of the first whose derived key decrypts the container's first
/// cipher block to show the magic marker. Candidates before the match
/// are attempted and rejected; none is skipped.
pub fn resolve_index_key(
    candidates: &Vec<Vec<u8>>,
    secondary: &[u8],
    iv: &[u8],
    first_block: &[u8],
) -> (r: Result<(usize, Vec<u8>), DecryptError>)
    requires
        iv@.len() == 16,
        first_block@.len() == 16,
    ensures
        match r {
            Ok(ik) => {
                &&& first_valid_candidate(candidates.deep_view(), secondary@, iv@, first_block@)
                    == Some(ik.0 as int)
                &&& ik.0 < candidates@.len()
                &&& ik.1@ == candidate_key(candidates@[ik.0 as int]@, secondary@)
                &&& ik.1@.len() == 16
            },
            Err(e) => {
                &&& e == DecryptError::KeyNotFound
                &&& first_valid_candidate(candidates.deep_view(), secondary@, iv@, first_block@)
                    is None
            },
        },
{
    let ghost cands = candidates.deep_view();
    let n = candidates.len();
    for i in 0..n
        invariant
            n == candidates@.len(),
            cands == candidates.deep_view(),
            iv@.len() == 16,
            first_block@.len() == 16,
            forall|j: int| 0 <= j < i ==> !candidate_ok(cands[j], secondary@, iv@, first_block@),
    {
        proof {
            assert(cands[i as int] =~= candidates@[i as int]@);
        }
        let key = derive_index_key(candidates[i].as_slice(), secondary);
        if key.len() == 16 {
            let block = aes128_cfb_decrypt(key.as_slice(), iv, first_block);
            let m0 = *vstd::slice::slice_index_get(block.as_slice(), 4);
            let m1 = *vstd::slice::slice_index_get(block.as_slice(), 5);
            let m2 = *vstd::slice::slice_index_get(block.as_slice(), 6);
            let m3 = *vstd::slice::slice_index_get(block.as_slice(), 7);
            if m0 == INDEX_MAGIC[0] && m1 == INDEX_MAGIC[1] && m2 == INDEX_MAGIC[2]
                && m3 == INDEX_MAGIC[3] {
                proof {
                    assert(block@.subrange(4, 8) =~= INDEX_MAGIC@);
                    assert(candidate_ok(cands[i as int], secondary@, iv@, first_block@));
                    lemma_first_valid_prefix(cands, secondary@, iv@, first_block@, i as int);
                    assert(cands.skip(i as int)[0] == cands[i as int]);
                    assert(first_valid_candidate(cands.skip(i as int), secondary@, iv@,
                        first_block@) == Some(0int));
                }
                return Ok((i, key));
            }
        }
        proof {
            assert(!candidate_ok(cands[i as int], secondary@, iv@, first_block@)) by {
                if candidate_ok(cands[i as int], secondary@, iv@, first_block@) {
                    assert(aes_cfb_plain(key@, iv@, first_block@).subrange(4, 8) == INDEX_MAGIC@);
                }
            }
            assert(cands.skip(i as int).drop_first() =~= cands.skip(i + 1));
        }
    }
    proof {
        lemma_first_valid_prefix(cands, secondary@, iv@, first_block@, n as int);
        assert(cands.skip(n as int).len() == 0);
    }
    Err(DecryptError::KeyNotFound)
}

/// When no candidate below `i` is valid, the scan's answer is the
/// answer over the remaining suffix, shifted by `i`.
proof fn lemma_first_valid_prefix(
    cands: Seq<Seq<u8>>,
    secondary: Seq<u8>,
    iv: Seq<u8>,
    block: Seq<u8>,
    i: int,
)
    requires
        0 <= i <= cands.len(),
        forall|j: int| 0 <= j < i ==> !candidate_ok(cands[j], secondary, iv, block),
    ensures
        match first_valid_candidate(cands.skip(i), secondary, iv, block) {
            None => first_valid_candidate(cands, secondary, iv, block) is None,
            Some(k) => first_valid_candidate(cands, secondary, iv, block) == Some(k + i),
        },
    decreases i,
{
    if i == 0 {
        assert(cands.skip(0) =~= cands);
    } else {
        lemma_first_valid_prefix(cands, secondary, iv, block, i - 1);
        assert(cands.skip(i - 1).len() > 0);
        assert(cands.skip(i - 1)[0] == cands[i - 1]);
        assert(cands.skip(i - 1).drop_first() =~= cands.skip(i));
    }
}

/// Decrypts a whole index container under the resolved key. Succeeds
/// exactly on well-formed containers: four size bytes announcing at
/// least themselves, then ciphertext padded to the next 16-byte
/// boundary; anything else is `MalformedContainer`. The result is the
/// record stream: the plaintext trimmed of its leading four bytes and
/// of the padding.
pub fn decrypt_index(container: &[u8], iv: &[u8], key: &[u8]) -> (r: Result<
    Vec<u8>,
    DecryptError,
>)
    requires
        key@.len() == 16,
        iv@.len() == 16,
    ensures
        match r {
            Ok(v) => container_wf(container@) && v@ == index_stream(container@, iv@, key@)
                && v@.len() == stored_size(container@) - 4,
            Err(e) => e == DecryptError::MalformedContainer && !container_wf(container@),
        },
{
    if container.len() < 4 {
        return Err(DecryptError::MalformedContainer);
    }
    let b0 = *vstd::slice::slice_index_get(container, 0);
    let b1 = *vstd::slice::slice_index_get(container, 1);
    let b2 = *vstd::slice::slice_index_get(container, 2);
    let b3 = *vstd::slice::slice_index_get(container, 3);
    let size: u64 = b0 as u64 + 0x100 * b1 as u64 + 0x10000 * b2 as u64 + 0x1000000 * b3 as u64;
    proof {
        assert(container@.subrange(0, 4) =~= seq![container@[0], container@[1], container@[2], container@[3]]);
    }
    if size < 4 {
        return Err(DecryptError::MalformedContainer);
    }
    let padded: u64 = if size % 16 == 0 {
        size
    } else {
        size + (16 - size % 16)
    };
    if container.len() as u64 - 4 != padded {
        return Err(DecryptError::MalformedContainer);
    }
    let ct = vstd::slice::slice_subrange(container, 4, container.len());
    proof {
        assert(ct@ =~= container@.skip(4));
        assert(pad16(size as int) % 16 == 0) by {
            assert(size as int % 16 != 0 ==> (size as int + 16 - size as int % 16) % 16 == 0)
                by (nonlinear_arith);
        }
    }
    let plain = aes128_cfb_decrypt(key, iv, ct);
    let out = vstd::slice::slice_to_vec(vstd::slice::slice_subrange(plain.as_slice(), 4, size as usize));
    proof {
        assert(out@ =~= index_stream(container@, iv@, key@));
    }
    Ok(out)
}

} // verus!
